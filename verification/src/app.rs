use vstd::prelude::*;
use std::collections::HashMap;
use crate::git::{DiffLineType, FileEntry, GitStatus};
use crate::manager::GitStatusManager;
use crate::path::{
    ancestors, ancestors_within, last_slash, lemma_last_slash, lemma_plain_parent, parent_of, path_parent,
    plain_parents, plain_relative, without_last_component,
};
use crate::status::{last_index_below, last_index_with_path};
use crate::strset::{set_contains, set_insert, set_remove, string_set};
use crate::text::{chars_of, contains_chars, contains_seq, lowercase, push_char, pop_char, str_eq, string_views, to_lowercase};

verus! {

/// Whether the application keeps running.
#[derive(Debug, Clone, Copy, PartialEq, Eq, Structural)]
pub enum AppState {
    Running,
    Quit,
}

/// Normal operation or the search prompt.
#[derive(Debug, Clone, Copy, PartialEq, Eq, Structural)]
pub enum AppMode {
    Normal,
    Search,
}

/// Which pane has the keyboard.
#[derive(Debug, Clone, Copy, PartialEq, Eq, Structural)]
pub enum FocusArea {
    Tree,
    Editor,
}

/// Which files the tree lists.
#[derive(Debug, Clone, Copy, PartialEq, Eq, Structural)]
pub enum DisplayMode {
    All,
    Changed,
    TrackedOnly,
}

/// A screen rectangle.
#[derive(Debug, Clone, Copy, PartialEq, Eq, Structural)]
pub struct Rect {
    pub x: u16,
    pub y: u16,
    pub width: u16,
    pub height: u16,
}

/// The application state.
pub struct App {
    pub working_dir: String,
    pub files: Vec<FileEntry>,
    pub cached_filtered: Vec<String>,
    pub selected: usize,
    pub scroll_offset: usize,
    pub state: AppState,
    pub focus: FocusArea,
    pub display_mode: DisplayMode,
    pub git_manager: GitStatusManager,
    pub refresh_interval: u64,
    pub error_message: Option<String>,
    pub show_help: bool,
    pub collapsed_dirs: Vec<String>,
    pub list_height: usize,
    pub editor_content: Vec<String>,
    pub editor_original_content: Vec<String>,
    pub editor_path: String,
    pub editor_cursor: (usize, usize),
    pub editor_scroll: usize,
    pub editor_modified: bool,
    pub editor_undo_stack: Vec<Vec<String>>,
    pub tree_width: usize,
    pub hover_row: Option<u16>,
    pub hover_col: Option<u16>,
    pub editor_area: Option<Rect>,
    pub status_message: Option<String>,
    pub mode: AppMode,
    pub search_query: String,
    pub middle_drag_origin: Option<u16>,
    pub is_middle_dragging: bool,
    pub editor_diff_lines: HashMap<usize, DiffLineType>,
    pub editor_h_scroll: usize,
}

/// The directory that collapsing acts on for an entry: the entry itself when it
/// is a directory, else its parent (empty when it has none).
pub open spec fn collapse_target(f: FileEntry) -> Seq<char> {
    if f.is_dir {
        f.path@
    } else {
        match path_parent(f.path@) {
            Some(q) => q,
            None => Seq::<char>::empty(),
        }
    }
}

/// Index of the first listed path at or after `i` whose lowercase form contains `q`.
pub open spec fn first_match_from(paths: Seq<Seq<char>>, q: Seq<char>, i: int) -> Option<int>
    decreases paths.len() - i,
{
    if i < 0 || i >= paths.len() {
        None
    } else if contains_seq(lowercase(paths[i]), q) {
        Some(i)
    } else {
        first_match_from(paths, q, i + 1)
    }
}

/// The scroll offset that brings row `m` into a window of `height` rows.
pub open spec fn scroll_to(m: usize, scroll: usize, height: usize) -> usize {
    if m < scroll {
        m
    } else if m >= scroll + height {
        (m - height + 1) as usize
    } else {
        scroll
    }
}

/// The state after searching: the first listed path that contains the query
/// (case-insensitively) is selected and scrolled into view; nothing changes for
/// an empty query or when no path matches.
pub open spec fn after_search(a: App) -> App {
    if a.search_query@.len() == 0 {
        a
    } else {
        match first_match_from(a.filtered(), lowercase(a.search_query@), 0) {
            None => a,
            Some(m) => App {
                selected: m as usize,
                scroll_offset: scroll_to(m as usize, a.scroll_offset, a.list_height),
                ..a
            },
        }
    }
}

/// The display mode that follows `m`.
pub open spec fn next_display_mode(m: DisplayMode) -> DisplayMode {
    match m {
        DisplayMode::All => DisplayMode::Changed,
        DisplayMode::Changed => DisplayMode::TrackedOnly,
        DisplayMode::TrackedOnly => DisplayMode::All,
    }
}

/// The state with the help shown or hidden, the other way round.
pub open spec fn help_toggled(a: App) -> App {
    App { show_help: !a.show_help, ..a }
}

/// The state after moving the selection one row up (when there is a row above),
/// scrolling up when it leaves the window.
pub open spec fn previous_selected(a: App) -> App {
    if a.filtered().len() > 0 && a.selected > 0 {
        App {
            selected: (a.selected - 1) as usize,
            scroll_offset: if a.scroll_offset > 0 && a.selected - 1 < a.scroll_offset {
                (a.selected - 1) as usize
            } else {
                a.scroll_offset
            },
            ..a
        }
    } else {
        a
    }
}

/// The state after moving the selection one row down (when there is a row
/// below), scrolling down when it leaves the window.
pub open spec fn next_selected(a: App) -> App {
    if a.filtered().len() > 0 && a.selected + 1 < a.filtered().len() {
        App {
            selected: (a.selected + 1) as usize,
            scroll_offset: if a.selected + 1 >= a.scroll_offset + a.list_height {
                (a.selected + 1 - a.list_height + 1) as usize
            } else {
                a.scroll_offset
            },
            ..a
        }
    } else {
        a
    }
}

/// What cycling the display mode does: the next mode, the listing rebuilt for
/// it, the selection and the scroll back at the top.
pub open spec fn display_mode_toggled(pre: App, post: App) -> bool {
    &&& post.display_mode == next_display_mode(pre.display_mode)
    &&& post.filtered() == post.visible()
    &&& post == (App {
        display_mode: next_display_mode(pre.display_mode),
        cached_filtered: post.cached_filtered,
        selected: 0,
        scroll_offset: 0,
        ..pre
    })
}

/// What taking a scan result does: on success the files are replaced, collapse
/// state is kept for directories that remain and set for new ones, the error is
/// cleared, the listing rebuilt and the selection kept inside it; on failure
/// only the error message is set.
pub open spec fn files_refreshed(pre: App, post: App, result: Result<Vec<FileEntry>, String>) -> bool {
    match result {
        Ok(fs) => {
            &&& post == (App {
                files: fs,
                collapsed_dirs: post.collapsed_dirs,
                cached_filtered: post.cached_filtered,
                error_message: None,
                selected: post.selected,
                ..pre
            })
            &&& post.collapsed_set() == refreshed_collapsed(
                pre.collapsed_set(),
                dir_paths(pre.files@),
                dir_paths(fs@),
            )
            &&& post.filtered() == post.visible()
            &&& post.selected == (if post.filtered().len() > 0 {
                clamp_index(pre.selected, post.filtered().len())
            } else {
                pre.selected
            })
        },
        Err(e) => post == (App { error_message: Some(e), ..pre }),
    }
}

/// What toggling the collapse state of the selected entry does (see
/// `App::toggle_collapse`).
pub open spec fn collapse_toggled(pre: App, post: App, needs_refresh: bool) -> bool {
    match pre.entry_at(pre.selected as int) {
        None => post == pre && !needs_refresh,
        Some(f) => {
            let t = collapse_target(f);
            if t.len() == 0 {
                post == pre && !needs_refresh
            } else if pre.collapsed_set().contains(t) {
                &&& needs_refresh
                &&& post.collapsed_set() == pre.collapsed_set().remove(t)
                &&& post.git_manager.expanded() == pre.git_manager.expanded().insert(t)
                &&& post.git_manager.working_dir_view() == pre.git_manager.working_dir_view()
                &&& post.git_manager.is_repo() == pre.git_manager.is_repo()
                &&& post.git_manager.prefix() == pre.git_manager.prefix()
                &&& post == (App {
                    collapsed_dirs: post.collapsed_dirs,
                    git_manager: post.git_manager,
                    ..pre
                })
            } else {
                &&& !needs_refresh
                &&& post.collapsed_set() == pre.collapsed_set().insert(t)
                &&& post.git_manager.expanded() == pre.git_manager.expanded().remove(t)
                &&& post.git_manager.working_dir_view() == pre.git_manager.working_dir_view()
                &&& post.git_manager.is_repo() == pre.git_manager.is_repo()
                &&& post.git_manager.prefix() == pre.git_manager.prefix()
                &&& post.filtered() == post.visible()
                &&& forall|i: int|
                    0 <= i < post.files@.len() && mode_shows(post.display_mode, post.files@[i].status)
                        && plain_relative(#[trigger] post.files@[i].path@) ==> (hidden_by(
                        post.collapsed_set(),
                        post.files@[i].path@,
                    ) <==> plain_hidden(pre.collapsed_set(), post.files@[i].path@) || plain_parents(
                        post.files@[i].path@,
                    ).contains(t))
                &&& post.selected == clamp_index(pre.selected, post.filtered().len())
                &&& post == (App {
                    collapsed_dirs: post.collapsed_dirs,
                    git_manager: post.git_manager,
                    cached_filtered: post.cached_filtered,
                    selected: post.selected,
                    ..pre
                })
            }
        },
    }
}

/// Counts of files by status.
#[derive(Debug, Default)]
pub struct Stats {
    pub total: usize,
    pub modified: usize,
    pub added: usize,
    pub deleted: usize,
    pub untracked: usize,
    pub renamed: usize,
    pub clean: usize,
}

/// Whether a display mode lists a file with status `s`.
pub open spec fn mode_shows(mode: DisplayMode, s: GitStatus) -> bool {
    match mode {
        DisplayMode::All => true,
        DisplayMode::Changed => s != GitStatus::Clean && s != GitStatus::Ignored,
        DisplayMode::TrackedOnly => s != GitStatus::Untracked,
    }
}

/// Some parent directory of `p` is collapsed.
pub open spec fn hidden_by(collapsed: Set<Seq<char>>, p: Seq<char>) -> bool {
    exists|i: int| 0 <= i < ancestors(p).len() && collapsed.contains(#[trigger] ancestors(p)[i])
}

/// Some parent of `p`, taken as text before a `/`, is collapsed.
pub open spec fn plain_hidden(collapsed: Set<Seq<char>>, p: Seq<char>) -> bool {
    exists|i: int| 0 <= i < plain_parents(p).len() && collapsed.contains(#[trigger] plain_parents(p)[i])
}

/// The paths the tree lists, in file order: those the mode shows and that no
/// collapsed directory hides.
pub open spec fn visible_paths(files: Seq<FileEntry>, mode: DisplayMode, collapsed: Set<Seq<char>>) -> Seq<
    Seq<char>,
>
    decreases files.len(),
{
    if files.len() == 0 {
        seq![]
    } else {
        let prev = visible_paths(files.drop_last(), mode, collapsed);
        let f = files.last();
        if mode_shows(mode, f.status) && !hidden_by(collapsed, f.path@) {
            prev.push(f.path@)
        } else {
            prev
        }
    }
}

/// Collapsing one more directory hides a path exactly when it was hidden
/// before or the directory is one of its parents.
proof fn lemma_plain_hidden_insert(collapsed: Set<Seq<char>>, t: Seq<char>, p: Seq<char>)
    ensures
        plain_hidden(collapsed.insert(t), p) <==> plain_hidden(collapsed, p) || plain_parents(p).contains(t),
{
    if plain_parents(p).contains(t) {
        let i = choose|i: int| 0 <= i < plain_parents(p).len() && plain_parents(p)[i] == t;
        assert(collapsed.insert(t).contains(plain_parents(p)[i]));
    }
    if plain_hidden(collapsed, p) {
        let i = choose|i: int| 0 <= i < plain_parents(p).len() && collapsed.contains(#[trigger] plain_parents(p)[i]);
        assert(collapsed.insert(t).contains(plain_parents(p)[i]));
    }
    if plain_hidden(collapsed.insert(t), p) {
        let i = choose|i: int|
            0 <= i < plain_parents(p).len() && collapsed.insert(t).contains(#[trigger] plain_parents(p)[i]);
        if plain_parents(p)[i] != t {
            assert(collapsed.contains(plain_parents(p)[i]));
        }
    }
}

/// Each listed path is the path of a file that the mode shows and that no
/// collapsed directory hides.
pub proof fn lemma_visible_member(files: Seq<FileEntry>, mode: DisplayMode, collapsed: Set<Seq<char>>, k: int)
    requires
        0 <= k < visible_paths(files, mode, collapsed).len(),
    ensures
        exists|j: int|
            0 <= j < files.len() && (#[trigger] files[j]).path@ == visible_paths(files, mode, collapsed)[k]
                && mode_shows(mode, files[j].status) && !hidden_by(collapsed, files[j].path@),
    decreases files.len(),
{
    let prev = visible_paths(files.drop_last(), mode, collapsed);
    if k < prev.len() {
        lemma_visible_member(files.drop_last(), mode, collapsed, k);
        let j = choose|j: int|
            0 <= j < files.drop_last().len() && (#[trigger] files.drop_last()[j]).path@ == prev[k]
                && mode_shows(mode, files.drop_last()[j].status) && !hidden_by(
                collapsed,
                files.drop_last()[j].path@,
            );
        assert(files.drop_last()[j] == files[j]);
    } else {
        assert(files[files.len() - 1] == files.last());
    }
}

/// Paths of the directories among the files.
pub open spec fn dir_paths(files: Seq<FileEntry>) -> Set<Seq<char>> {
    Set::new(|p: Seq<char>| exists|i: int| 0 <= i < files.len() && (#[trigger] files[i]).is_dir && files[i].path@ == p)
}

/// The entry for a path: the last file with that path.
pub open spec fn lookup_path(files: Seq<FileEntry>, p: Seq<char>) -> Option<FileEntry> {
    match last_index_with_path(files, p) {
        Some(i) => Some(files[i]),
        None => None,
    }
}

/// A step from `pre` to `post` that leaves a current listing current.
pub open spec fn keeps_listing(pre: App, post: App) -> bool {
    pre.listing_current() ==> post.listing_current()
}

/// Collapsed directories after a refresh: those that still exist, plus every
/// directory that was not there before.
pub open spec fn refreshed_collapsed(
    collapsed: Set<Seq<char>>,
    old_dirs: Set<Seq<char>>,
    new_dirs: Set<Seq<char>>,
) -> Set<Seq<char>> {
    collapsed.intersect(new_dirs).union(new_dirs.difference(old_dirs))
}

/// Number of files with status `s`.
pub open spec fn count_status(files: Seq<FileEntry>, s: GitStatus) -> nat
    decreases files.len(),
{
    if files.len() == 0 {
        0
    } else {
        count_status(files.drop_last(), s) + if files.last().status == s {
            1nat
        } else {
            0nat
        }
    }
}

/// `idx` clamped into a list of `len` items (0 when the list is empty).
pub open spec fn clamp_index(idx: usize, len: nat) -> usize {
    if idx >= len {
        if len == 0 {
            0
        } else {
            (len - 1) as usize
        }
    } else {
        idx
    }
}

proof fn lemma_count_bound(files: Seq<FileEntry>, s: GitStatus)
    ensures
        count_status(files, s) <= files.len(),
    decreases files.len(),
{
    if files.len() > 0 {
        lemma_count_bound(files.drop_last(), s);
    }
}

impl App {
    pub open spec fn filtered(&self) -> Seq<Seq<char>> {
        string_views(self.cached_filtered@)
    }

    /// The listing matches the files, the display mode and the collapse state.
    pub open spec fn listing_current(&self) -> bool {
        self.filtered() == self.visible()
    }

    pub open spec fn collapsed_set(&self) -> Set<Seq<char>> {
        string_set(self.collapsed_dirs@)
    }

    /// The paths the tree should list for the current files, mode and collapse state.
    pub open spec fn visible(&self) -> Seq<Seq<char>> {
        visible_paths(self.files@, self.display_mode, self.collapsed_set())
    }

    /// The entry at row `idx` of the listed paths.
    pub open spec fn entry_at(&self, idx: int) -> Option<FileEntry> {
        if 0 <= idx < self.filtered().len() {
            lookup_path(self.files@, self.filtered()[idx])
        } else {
            None
        }
    }

    /// The application for `working_dir`, with the first scan result `status`
    /// (what `GitStatusManager::get_status` gave); every directory starts
    /// collapsed, so a listed plain relative path is a single name unless the
    /// directory that holds it is not among the entries.
    pub fn new(working_dir: &str, git_manager: GitStatusManager, status: Result<Vec<FileEntry>, String>) -> (app: App)
        ensures
            app.working_dir@ == working_dir@,
            app.git_manager == git_manager,
            match status {
                Ok(fs) => app.files == fs && app.error_message is None && app.collapsed_set()
                    == dir_paths(fs@),
                Err(e) => app.files@ == Seq::<FileEntry>::empty() && app.error_message == Some(e)
                    && app.collapsed_set() == Set::<Seq<char>>::empty(),
            },
            app.filtered() == app.visible(),
            forall|k: int|
                0 <= k < app.filtered().len() && plain_relative(#[trigger] app.filtered()[k]) && last_slash(
                    app.filtered()[k],
                ) >= 0 ==> !dir_paths(app.files@).contains(without_last_component(app.filtered()[k])),
            app.selected == 0,
            app.scroll_offset == 0,
            app.state == AppState::Running,
            app.focus == FocusArea::Tree,
            app.display_mode == DisplayMode::All,
            app.refresh_interval == 2,
            !app.show_help,
            app.list_height == 20,
            app.editor_content@ == Seq::<String>::empty(),
            app.editor_original_content@ == Seq::<String>::empty(),
            app.editor_path@ == Seq::<char>::empty(),
            app.editor_cursor == (0usize, 0usize),
            app.editor_scroll == 0,
            !app.editor_modified,
            app.editor_undo_stack@ == Seq::<Vec<String>>::empty(),
            app.tree_width == 40,
            app.hover_row is None,
            app.hover_col is None,
            app.editor_area is None,
            app.status_message is None,
            app.mode == AppMode::Normal,
            app.search_query@ == Seq::<char>::empty(),
            app.middle_drag_origin is None,
            !app.is_middle_dragging,
            app.editor_diff_lines@ == Map::<usize, DiffLineType>::empty(),
            app.editor_h_scroll == 0,
    {
        let mut app = App {
            working_dir: working_dir.to_owned(),
            files: Vec::new(),
            cached_filtered: Vec::new(),
            selected: 0,
            scroll_offset: 0,
            state: AppState::Running,
            focus: FocusArea::Tree,
            display_mode: DisplayMode::All,
            git_manager,
            refresh_interval: 2,
            error_message: None,
            show_help: false,
            collapsed_dirs: Vec::new(),
            list_height: 20,
            editor_content: Vec::new(),
            editor_original_content: Vec::new(),
            editor_path: String::new(),
            editor_cursor: (0, 0),
            editor_scroll: 0,
            editor_modified: false,
            editor_undo_stack: Vec::new(),
            tree_width: 40,
            hover_row: None,
            hover_col: None,
            editor_area: None,
            status_message: None,
            mode: AppMode::Normal,
            search_query: String::new(),
            middle_drag_origin: None,
            is_middle_dragging: false,
            editor_diff_lines: HashMap::new(),
            editor_h_scroll: 0,
        };
        proof {
            assert(app.collapsed_set() =~= Set::<Seq<char>>::empty());
            assert(dir_paths(app.files@) =~= Set::<Seq<char>>::empty());
        }
        let ghost st = status;
        app.refresh_files(status);
        // Every directory starts collapsed.
        let ghost c0 = app.collapsed_set();
        proof {
            match st {
                Ok(fs) => {
                    assert(c0 =~= dir_paths(app.files@));
                },
                Err(e) => {
                    assert(dir_paths(app.files@) =~= Set::<Seq<char>>::empty());
                },
            }
        }
        let mut cd: Vec<String> = Vec::new();
        std::mem::swap(&mut cd, &mut app.collapsed_dirs);
        let mut i: usize = 0;
        while i < app.files.len()
            invariant
                i <= app.files@.len(),
                string_set(cd@) == c0.union(dir_paths(app.files@.take(i as int))),
            decreases app.files@.len() - i,
        {
            if app.files[i].is_dir {
                set_insert(&mut cd, app.files[i].path.as_str());
            }
            proof {
                lemma_dir_paths_take_step(app.files@, i as int);
                assert(string_set(cd@) =~= c0.union(dir_paths(app.files@.take(i + 1))));
            }
            i += 1;
        }
        proof {
            assert(app.files@.take(i as int) =~= app.files@);
            assert(string_set(cd@) =~= dir_paths(app.files@));
        }
        app.collapsed_dirs = cd;
        app.update_cached_filtered();
        proof {
            // Every directory is collapsed, so a listed path below one of them
            // would be hidden.
            let c = app.collapsed_set();
            assert forall|k: int|
                0 <= k < app.filtered().len() && plain_relative(#[trigger] app.filtered()[k]) && last_slash(
                    app.filtered()[k],
                ) >= 0 implies !dir_paths(app.files@).contains(without_last_component(app.filtered()[k])) by {
                let p = app.filtered()[k];
                lemma_visible_member(app.files@, app.display_mode, c, k);
                let j = choose|j: int|
                    0 <= j < app.files@.len() && (#[trigger] app.files@[j]).path@ == p && mode_shows(
                        app.display_mode,
                        app.files@[j].status,
                    ) && !hidden_by(c, app.files@[j].path@);
                lemma_last_slash(p);
                assert(plain_parents(p)[0] == without_last_component(p));
                if dir_paths(app.files@).contains(without_last_component(p)) {
                    assert(c.contains(plain_parents(p)[0]));
                    assert(plain_hidden(c, p));
                }
            }
        }
        app
    }

    /// Takes a new scan result: on success the files are replaced, collapse state
    /// is kept for directories that remain and set for new ones, the error is
    /// cleared, the listing rebuilt and the selection kept inside it; on failure
    /// only the error message is set.
    pub fn refresh_files(&mut self, result: Result<Vec<FileEntry>, String>)
        ensures
            keeps_listing(*old(self), *final(self)),
            files_refreshed(*old(self), *final(self), result),
    {
        match result {
            Ok(files) => {
                let ghost old_dirs = dir_paths(self.files@);
                let ghost new_dirs = dir_paths(files@);
                let ghost c_old = self.collapsed_set();
                let mut kept: Vec<String> = Vec::new();
                let mut i: usize = 0;
                // Keep collapsed directories that still exist.
                while i < self.collapsed_dirs.len()
                    invariant
                        i <= self.collapsed_dirs@.len(),
                        c_old == self.collapsed_set(),
                        new_dirs == dir_paths(files@),
                        string_set(kept@) == string_set(self.collapsed_dirs@.take(i as int)).intersect(new_dirs),
                    decreases self.collapsed_dirs@.len() - i,
                {
                    let ghost before = kept@;
                    let ghost pi = self.collapsed_dirs@[i as int]@;
                    if has_dir(&files, self.collapsed_dirs[i].as_str()) {
                        kept.push(self.collapsed_dirs[i].clone());
                    }
                    proof {
                        lemma_take_push_set(self.collapsed_dirs@, i as int);
                        if new_dirs.contains(pi) {
                            lemma_push_set(before, kept@.last());
                        }
                        assert(string_set(kept@) =~= string_set(self.collapsed_dirs@.take(i + 1)).intersect(new_dirs));
                    }
                    i += 1;
                }
                proof {
                    assert(self.collapsed_dirs@.take(i as int) =~= self.collapsed_dirs@);
                }
                // Collapse directories that were not there before.
                let mut j: usize = 0;
                while j < files.len()
                    invariant
                        j <= files@.len(),
                        new_dirs == dir_paths(files@),
                        old_dirs == dir_paths(self.files@),
                        string_set(kept@) == c_old.intersect(new_dirs).union(
                            dir_paths(files@.take(j as int)).difference(old_dirs),
                        ),
                    decreases files@.len() - j,
                {
                    let ghost before = string_set(kept@);
                    if files[j].is_dir && !has_dir(&self.files, files[j].path.as_str()) {
                        set_insert(&mut kept, files[j].path.as_str());
                    }
                    proof {
                        lemma_dir_paths_take_step(files@, j as int);
                        assert(string_set(kept@) =~= c_old.intersect(new_dirs).union(
                            dir_paths(files@.take(j + 1)).difference(old_dirs),
                        ));
                    }
                    j += 1;
                }
                proof {
                    assert(files@.take(j as int) =~= files@);
                }
                self.files = files;
                self.collapsed_dirs = kept;
                self.error_message = None;
                self.update_cached_filtered();
                if self.cached_filtered.len() > 0 && self.selected >= self.cached_filtered.len() {
                    self.selected = self.cached_filtered.len() - 1;
                }
            },
            Err(e) => {
                self.error_message = Some(e);
            },
        }
    }

    /// The entry for `path` (the last file with that path).
    pub fn get_file_by_path(&self, path: &str) -> (r: Option<&FileEntry>)
        ensures
            match lookup_path(self.files@, path@) {
                Some(f) => r matches Some(g) && *g == f,
                None => r is None,
            },
    {
        let mut n = self.files.len();
        while n > 0
            invariant
                n <= self.files@.len(),
                last_index_with_path(self.files@, path@) == last_index_below(self.files@, path@, n as int),
            decreases n,
        {
            if str_eq(self.files[n - 1].path.as_str(), path) {
                return Some(&self.files[n - 1]);
            }
            n -= 1;
        }
        None
    }

    /// Rebuilds the listing from the files, the mode and the collapse state.
    pub fn update_cached_filtered(&mut self)
        ensures
            keeps_listing(*old(self), *final(self)),
            *final(self) == (App { cached_filtered: final(self).cached_filtered, ..*old(self) }),
            final(self).filtered() == old(self).visible(),
            final(self).listing_current(),
            forall|i: int|
                0 <= i < final(self).files@.len() && mode_shows(final(self).display_mode, final(self).files@[i].status)
                    && plain_relative(#[trigger] final(self).files@[i].path@) ==> hidden_by(
                    final(self).collapsed_set(),
                    final(self).files@[i].path@,
                ) == plain_hidden(final(self).collapsed_set(), final(self).files@[i].path@),
    {
        let mut out: Vec<String> = Vec::new();
        let mut i: usize = 0;
        while i < self.files.len()
            invariant
                i <= self.files@.len(),
                string_views(out@) == visible_paths(self.files@.take(i as int), self.display_mode, self.collapsed_set()),
                forall|k: int|
                    0 <= k < i && mode_shows(self.display_mode, self.files@[k].status) && plain_relative(
                        #[trigger] self.files@[k].path@,
                    ) ==> hidden_by(self.collapsed_set(), self.files@[k].path@) == plain_hidden(
                        self.collapsed_set(),
                        self.files@[k].path@,
                    ),
            decreases self.files@.len() - i,
        {
            let ghost before = string_views(out@);
            let shows = match self.display_mode {
                DisplayMode::All => true,
                DisplayMode::Changed => self.files[i].status != GitStatus::Clean && self.files[i].status
                    != GitStatus::Ignored,
                DisplayMode::TrackedOnly => self.files[i].status != GitStatus::Untracked,
            };
            if shows && self.should_show(self.files[i].path.as_str()) {
                out.push(self.files[i].path.clone());
                proof {
                    assert(string_views(out@) =~= before.push(self.files@[i as int].path@));
                }
            }
            proof {
                let fs = self.files@;
                assert(fs.take(i + 1).drop_last() =~= fs.take(i as int));
                assert(fs.take(i + 1).last() == fs[i as int]);
            }
            i += 1;
        }
        proof {
            assert(self.files@.take(i as int) =~= self.files@);
        }
        self.cached_filtered = out;
    }

    /// Whether a path is listed as far as collapsing goes: no parent directory of
    /// it is collapsed.
    pub fn should_show(&self, path: &str) -> (r: bool)
        ensures
            r == !hidden_by(self.collapsed_set(), path@),
            plain_relative(path@) ==> r == !plain_hidden(self.collapsed_set(), path@),
    {
        let ghost all = ancestors(path@);
        let ghost plain = plain_relative(path@);
        let mut cur = path.to_owned();
        let ghost mut fuel: nat = (path@.len() + 1) as nat;
        let ghost mut done: Seq<Seq<char>> = seq![];
        proof {
            assert(all =~= done + ancestors_within(cur@, fuel));
            assert(done + plain_parents(cur@) =~= plain_parents(path@));
        }
        loop
            invariant
                fuel >= cur@.len() + 1,
                all == ancestors(path@),
                all == done + ancestors_within(cur@, fuel),
                forall|k: int| 0 <= k < done.len() ==> !self.collapsed_set().contains(#[trigger] done[k]),
                plain == plain_relative(path@),
                plain ==> cur@.len() == 0 || plain_relative(cur@),
                plain ==> done + plain_parents(cur@) == plain_parents(path@),
            decreases cur@.len(),
        {
            match parent_of(cur.as_str()) {
                None => {
                    proof {
                        assert(ancestors_within(cur@, fuel) =~= Seq::<Seq<char>>::empty());
                        assert(all =~= done);
                        if plain {
                            assert(plain_parents(cur@) =~= Seq::<Seq<char>>::empty());
                            assert(done + plain_parents(cur@) =~= done);
                        }
                    }
                    return true;
                },
                Some(q) => {
                    proof {
                        assert(ancestors_within(cur@, fuel) == seq![q@] + ancestors_within(q@, (fuel - 1) as nat));
                        if plain {
                            lemma_last_slash(cur@);
                            assert(q@ == without_last_component(cur@));
                            assert(plain_parents(cur@) == seq![q@] + plain_parents(q@));
                            assert(done.push(q@) + plain_parents(q@) =~= done + plain_parents(cur@));
                            if last_slash(cur@) >= 0 {
                                lemma_plain_parent(cur@);
                            }
                        }
                    }
                    if self.is_collapsed(q.as_str()) {
                        proof {
                            assert(all[done.len() as int] == q@);
                            if plain {
                                assert(plain_parents(path@)[done.len() as int] == q@);
                            }
                        }
                        return false;
                    }
                    proof {
                        assert(all =~= done.push(q@) + ancestors_within(q@, (fuel - 1) as nat));
                        done = done.push(q@);
                        fuel = (fuel - 1) as nat;
                    }
                    cur = q;
                },
            }
        }
    }

    /// Whether the directory `path` is collapsed.
    pub fn is_collapsed(&self, path: &str) -> (r: bool)
        ensures
            r == self.collapsed_set().contains(path@),
    {
        set_contains(&self.collapsed_dirs, path)
    }

    /// The listed paths.
    pub fn get_filtered_paths(&self) -> (r: &Vec<String>)
        ensures
            *r == self.cached_filtered,
    {
        &self.cached_filtered
    }

    /// The entry at row `index` of the listing.
    pub fn get_file_by_index(&self, index: usize) -> (r: Option<&FileEntry>)
        ensures
            match self.entry_at(index as int) {
                Some(f) => r matches Some(g) && *g == f,
                None => r is None,
            },
    {
        if index < self.cached_filtered.len() {
            proof {
                assert(self.filtered()[index as int] == self.cached_filtered@[index as int]@);
            }
            self.get_file_by_path(self.cached_filtered[index].as_str())
        } else {
            None
        }
    }

    /// The selected entry.
    pub fn selected_file(&self) -> (r: Option<&FileEntry>)
        ensures
            match self.entry_at(self.selected as int) {
                Some(f) => r matches Some(g) && *g == f,
                None => r is None,
            },
    {
        self.get_file_by_index(self.selected)
    }

    /// Moves the selection one row up, scrolling up when it leaves the window.
    pub fn select_previous(&mut self)
        ensures
            keeps_listing(*old(self), *final(self)),
            *final(self) == previous_selected(*old(self)),
    {
        if self.cached_filtered.len() > 0 && self.selected > 0 {
            self.selected -= 1;
            if self.scroll_offset > 0 && self.selected < self.scroll_offset {
                self.scroll_offset = self.selected;
            }
        }
    }

    /// Moves the selection one row down, scrolling down when it leaves the window.
    pub fn select_next(&mut self)
        requires
            old(self).filtered().len() > 0 && old(self).selected + 1 < old(self).filtered().len()
                ==> old(self).scroll_offset + old(self).list_height <= usize::MAX,
        ensures
            keeps_listing(*old(self), *final(self)),
            *final(self) == next_selected(*old(self)),
    {
        if self.cached_filtered.len() > 0 && self.selected < self.cached_filtered.len() - 1 {
            self.selected += 1;
            if self.selected >= self.scroll_offset + self.list_height {
                self.scroll_offset = self.selected - self.list_height + 1;
            }
        }
    }

    /// Keeps the selection inside the listing.
    pub fn clamp_selected(&mut self)
        ensures
            keeps_listing(*old(self), *final(self)),
            *final(self) == (App {
                selected: clamp_index(old(self).selected, old(self).filtered().len()),
                ..*old(self)
            }),
    {
        if self.selected >= self.cached_filtered.len() {
            self.selected = if self.cached_filtered.len() == 0 {
                0
            } else {
                self.cached_filtered.len() - 1
            };
        }
    }

    /// Collapses or expands the directory of the selected entry. When it expands
    /// one, the tree must be read again: the result is `true` and the caller
    /// follows with `refresh_files` and `clamp_selected`. When it collapses one,
    /// the listing is rebuilt and the selection kept inside it here; a plain
    /// relative path is then hidden exactly when it was hidden before or the
    /// collapsed directory is one of its parents.
    pub fn toggle_collapse(&mut self) -> (needs_refresh: bool)
        ensures
            !needs_refresh ==> keeps_listing(*old(self), *final(self)),
            collapse_toggled(*old(self), *final(self), needs_refresh),
    {
        let info = match self.get_file_by_index(self.selected) {
            Some(f) => Some((f.is_dir, f.path.clone())),
            None => None,
        };
        let (is_dir, path) = match info {
            Some(x) => x,
            None => {
                return false;
            },
        };
        let target = if is_dir {
            path
        } else {
            match parent_of(path.as_str()) {
                Some(q) => q,
                None => String::new(),
            }
        };
        if target.as_str().is_empty() {
            return false;
        }
        if self.is_collapsed(target.as_str()) {
            set_remove(&mut self.collapsed_dirs, target.as_str());
            self.git_manager.expand_dir(target.as_str());
            true
        } else {
            let ghost c0 = self.collapsed_set();
            set_insert(&mut self.collapsed_dirs, target.as_str());
            self.git_manager.collapse_dir(target.as_str());
            self.update_cached_filtered();
            proof {
                assert forall|i: int|
                    0 <= i < self.files@.len() && mode_shows(self.display_mode, self.files@[i].status)
                        && plain_relative(#[trigger] self.files@[i].path@) implies (hidden_by(
                    self.collapsed_set(),
                    self.files@[i].path@,
                ) <==> plain_hidden(c0, self.files@[i].path@) || plain_parents(self.files@[i].path@).contains(
                    target@,
                )) by {
                    lemma_plain_hidden_insert(c0, target@, self.files@[i].path@);
                }
            }
            self.clamp_selected();
            false
        }
    }

    /// Cycles the display mode (all, changed, tracked), rebuilds the listing and
    /// resets the selection and the scroll.
    pub fn toggle_display_mode(&mut self)
        ensures
            keeps_listing(*old(self), *final(self)),
            display_mode_toggled(*old(self), *final(self)),
    {
        self.display_mode = match self.display_mode {
            DisplayMode::All => DisplayMode::Changed,
            DisplayMode::Changed => DisplayMode::TrackedOnly,
            DisplayMode::TrackedOnly => DisplayMode::All,
        };
        self.update_cached_filtered();
        self.selected = 0;
        self.scroll_offset = 0;
    }

    /// Opens or closes the search prompt; the query starts empty either way.
    pub fn toggle_search(&mut self)
        ensures
            keeps_listing(*old(self), *final(self)),
            final(self).search_query@ == Seq::<char>::empty(),
            *final(self) == (App {
                mode: match old(self).mode {
                    AppMode::Normal => AppMode::Search,
                    AppMode::Search => AppMode::Normal,
                },
                search_query: final(self).search_query,
                ..*old(self)
            }),
    {
        match self.mode {
            AppMode::Normal => {
                self.mode = AppMode::Search;
            },
            AppMode::Search => {
                self.mode = AppMode::Normal;
            },
        }
        self.search_query = String::new();
    }

    /// Types a character into the search query and jumps to the first match.
    pub fn search_input(&mut self, c: char)
        requires
            old(self).filtered().len() > old(self).scroll_offset ==> old(self).scroll_offset + old(
                self,
            ).list_height <= usize::MAX,
        ensures
            keeps_listing(*old(self), *final(self)),
            final(self).search_query@ == old(self).search_query@.push(c),
            *final(self) == after_search(App { search_query: final(self).search_query, ..*old(self) }),
    {
        push_char(&mut self.search_query, c);
        self.search_and_select();
    }

    /// Deletes the last character of the search query and jumps to the first match.
    pub fn search_backspace(&mut self)
        requires
            old(self).filtered().len() > old(self).scroll_offset ==> old(self).scroll_offset + old(
                self,
            ).list_height <= usize::MAX,
        ensures
            keeps_listing(*old(self), *final(self)),
            final(self).search_query@ == (if old(self).search_query@.len() == 0 {
                old(self).search_query@
            } else {
                old(self).search_query@.drop_last()
            }),
            *final(self) == after_search(App { search_query: final(self).search_query, ..*old(self) }),
    {
        let _ = pop_char(&mut self.search_query);
        self.search_and_select();
    }

    /// Selects the first listed path that contains the query, ignoring case.
    fn search_and_select(&mut self)
        requires
            old(self).filtered().len() > old(self).scroll_offset ==> old(self).scroll_offset + old(
                self,
            ).list_height <= usize::MAX,
        ensures
            *final(self) == after_search(*old(self)),
    {
        if self.search_query.as_str().is_empty() {
            return;
        }
        let q = to_lowercase(self.search_query.as_str());
        let qc = chars_of(q.as_str());
        let ghost paths = self.filtered();
        let mut idx: usize = 0;
        while idx < self.cached_filtered.len()
            invariant
                idx <= self.cached_filtered@.len(),
                *self == *old(self),
                self.search_query@.len() != 0,
                old(self).filtered().len() > old(self).scroll_offset ==> old(self).scroll_offset + old(
                    self,
                ).list_height <= usize::MAX,
                paths == self.filtered(),
                qc@ == lowercase(self.search_query@),
                first_match_from(paths, qc@, 0) == first_match_from(paths, qc@, idx as int),
            decreases self.cached_filtered@.len() - idx,
        {
            let low = to_lowercase(self.cached_filtered[idx].as_str());
            let lc = chars_of(low.as_str());
            proof {
                assert(paths[idx as int] == self.cached_filtered@[idx as int]@);
            }
            if contains_chars(lc.as_slice(), qc.as_slice()) {
                proof {
                    assert(first_match_from(paths, qc@, idx as int) == Some(idx as int));
                }
                self.selected = idx;
                if self.selected < self.scroll_offset {
                    self.scroll_offset = self.selected;
                } else if self.selected >= self.scroll_offset + self.list_height {
                    self.scroll_offset = self.selected - self.list_height + 1;
                }
                return;
            }
            idx += 1;
        }
    }

    /// Stops the application.
    pub fn quit(&mut self)
        ensures
            keeps_listing(*old(self), *final(self)),
            *final(self) == (App { state: AppState::Quit, ..*old(self) }),
    {
        self.state = AppState::Quit;
    }

    /// Shows or hides the help.
    pub fn toggle_help(&mut self)
        ensures
            keeps_listing(*old(self), *final(self)),
            *final(self) == help_toggled(*old(self)),
    {
        self.show_help = !self.show_help;
    }

    /// Sets the number of rows the tree shows.
    pub fn set_list_height(&mut self, height: usize)
        ensures
            keeps_listing(*old(self), *final(self)),
            *final(self) == (App { list_height: height, ..*old(self) }),
    {
        self.list_height = height;
    }

    /// Whether a refresh is due `elapsed_secs` whole seconds after the last one:
    /// once the refresh interval has passed.
    pub fn should_refresh(&self, elapsed_secs: u64) -> (r: bool)
        ensures
            r == (elapsed_secs >= self.refresh_interval),
    {
        elapsed_secs >= self.refresh_interval
    }

    /// Counts the files by status.
    pub fn get_stats(&self) -> (r: Stats)
        ensures
            r.total == self.files@.len(),
            r.modified == count_status(self.files@, GitStatus::Modified),
            r.added == count_status(self.files@, GitStatus::Added),
            r.deleted == count_status(self.files@, GitStatus::Deleted),
            r.untracked == count_status(self.files@, GitStatus::Untracked),
            r.renamed == count_status(self.files@, GitStatus::Renamed),
            r.clean == count_status(self.files@, GitStatus::Clean),
    {
        let mut st = Stats { total: 0, modified: 0, added: 0, deleted: 0, untracked: 0, renamed: 0, clean: 0 };
        let mut i: usize = 0;
        while i < self.files.len()
            invariant
                i <= self.files@.len(),
                st.modified == count_status(self.files@.take(i as int), GitStatus::Modified),
                st.added == count_status(self.files@.take(i as int), GitStatus::Added),
                st.deleted == count_status(self.files@.take(i as int), GitStatus::Deleted),
                st.untracked == count_status(self.files@.take(i as int), GitStatus::Untracked),
                st.renamed == count_status(self.files@.take(i as int), GitStatus::Renamed),
                st.clean == count_status(self.files@.take(i as int), GitStatus::Clean),
            decreases self.files@.len() - i,
        {
            proof {
                let fs = self.files@;
                assert(fs.take(i + 1).drop_last() =~= fs.take(i as int));
                assert(fs.take(i + 1).last() == fs[i as int]);
                lemma_count_bound(fs.take(i as int), GitStatus::Modified);
                lemma_count_bound(fs.take(i as int), GitStatus::Added);
                lemma_count_bound(fs.take(i as int), GitStatus::Deleted);
                lemma_count_bound(fs.take(i as int), GitStatus::Untracked);
                lemma_count_bound(fs.take(i as int), GitStatus::Renamed);
                lemma_count_bound(fs.take(i as int), GitStatus::Clean);
            }
            match self.files[i].status {
                GitStatus::Modified => st.modified += 1,
                GitStatus::Added => st.added += 1,
                GitStatus::Deleted => st.deleted += 1,
                GitStatus::Untracked => st.untracked += 1,
                GitStatus::Renamed => st.renamed += 1,
                GitStatus::Clean => st.clean += 1,
                _ => {},
            }
            i += 1;
        }
        proof {
            assert(self.files@.take(i as int) =~= self.files@);
        }
        st.total = self.files.len();
        st
    }
}

/// Whether `files` has a directory with path `p`.
fn has_dir(files: &Vec<FileEntry>, p: &str) -> (r: bool)
    ensures
        r == dir_paths(files@).contains(p@),
{
    let mut i: usize = 0;
    while i < files.len()
        invariant
            i <= files@.len(),
            forall|j: int| 0 <= j < i ==> !((#[trigger] files@[j]).is_dir && files@[j].path@ == p@),
        decreases files@.len() - i,
    {
        if files[i].is_dir && str_eq(files[i].path.as_str(), p) {
            proof {
                assert(files@[i as int].is_dir && files@[i as int].path@ == p@);
            }
            return true;
        }
        i += 1;
    }
    false
}

proof fn lemma_take_push_set(v: Seq<String>, i: int)
    requires
        0 <= i < v.len(),
    ensures
        string_set(v.take(i + 1)) == string_set(v.take(i)).insert(v[i]@),
{
    assert forall|x: Seq<char>| #[trigger] string_set(v.take(i + 1)).contains(x) <==> string_set(v.take(i)).insert(v[i]@).contains(x) by {
        if string_set(v.take(i + 1)).contains(x) {
            let j = choose|j: int| 0 <= j < v.take(i + 1).len() && (#[trigger] v.take(i + 1)[j])@ == x;
            if j < i {
                assert(v.take(i)[j] == v.take(i + 1)[j]);
            }
        }
        if string_set(v.take(i)).contains(x) {
            let j = choose|j: int| 0 <= j < v.take(i).len() && (#[trigger] v.take(i)[j])@ == x;
            assert(v.take(i + 1)[j] == v.take(i)[j]);
        }
        if x == v[i]@ {
            assert(v.take(i + 1)[i] == v[i]);
        }
    }
    assert(string_set(v.take(i + 1)) =~= string_set(v.take(i)).insert(v[i]@));
}

proof fn lemma_push_set(v: Seq<String>, x: String)
    ensures
        string_set(v.push(x)) == string_set(v).insert(x@),
{
    assert forall|y: Seq<char>| #[trigger] string_set(v.push(x)).contains(y) <==> string_set(v).insert(x@).contains(y) by {
        if string_set(v.push(x)).contains(y) {
            let j = choose|j: int| 0 <= j < v.push(x).len() && (#[trigger] v.push(x)[j])@ == y;
            if j < v.len() {
                assert(v[j] == v.push(x)[j]);
            }
        }
        if string_set(v).contains(y) {
            let j = choose|j: int| 0 <= j < v.len() && (#[trigger] v[j])@ == y;
            assert(v.push(x)[j] == v[j]);
        }
        if y == x@ {
            assert(v.push(x)[v.len() as int] == x);
        }
    }
    assert(string_set(v.push(x)) =~= string_set(v).insert(x@));
}

proof fn lemma_dir_paths_take_step(fs: Seq<FileEntry>, j: int)
    requires
        0 <= j < fs.len(),
    ensures
        dir_paths(fs.take(j + 1)) == (if fs[j].is_dir {
            dir_paths(fs.take(j)).insert(fs[j].path@)
        } else {
            dir_paths(fs.take(j))
        }),
{
    let a = fs.take(j + 1);
    let b = fs.take(j);
    assert forall|p: Seq<char>| #[trigger] dir_paths(a).contains(p) <==> (dir_paths(b).contains(p) || (fs[j].is_dir && fs[j].path@ == p)) by {
        if dir_paths(a).contains(p) {
            let k = choose|k: int| 0 <= k < a.len() && (#[trigger] a[k]).is_dir && a[k].path@ == p;
            if k < j {
                assert(b[k] == a[k]);
            }
        }
        if dir_paths(b).contains(p) {
            let k = choose|k: int| 0 <= k < b.len() && (#[trigger] b[k]).is_dir && b[k].path@ == p;
            assert(a[k] == b[k]);
        }
        if fs[j].is_dir && fs[j].path@ == p {
            assert(a[j] == fs[j]);
        }
    }
    if fs[j].is_dir {
        assert(dir_paths(a) =~= dir_paths(b).insert(fs[j].path@));
    } else {
        assert(dir_paths(a) =~= dir_paths(b));
    }
}

} // verus!
