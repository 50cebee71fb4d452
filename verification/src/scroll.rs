use vstd::prelude::*;
use crate::app::{collapse_toggled, keeps_listing, App, FocusArea};
use crate::editor::{editor_page, Followup};

verus! {

/// Kind of mouse event the tree and editor react to.
#[derive(Debug, Clone, Copy, PartialEq, Eq, Structural)]
pub enum MouseKind {
    LeftDown,
    MiddleDown,
    Other,
}

/// `a - b`, or 0 when `b` is larger.
pub open spec fn sat_sub(a: int, b: int) -> int {
    if a >= b {
        a - b
    } else {
        0
    }
}

pub open spec fn min_int(a: int, b: int) -> int {
    if a < b {
        a
    } else {
        b
    }
}

/// The state after scrolling the tree up by `lines` rows: the selection is kept
/// inside the window.
pub open spec fn scroll_up_result(a: App, lines: usize) -> App {
    let s = sat_sub(a.scroll_offset as int, lines as int);
    App {
        scroll_offset: s as usize,
        selected: if lines > 0 && a.selected > s + a.list_height - 1 {
            (s + a.list_height - 1) as usize
        } else {
            a.selected
        },
        ..a
    }
}

/// The state after scrolling the tree down by `lines` rows (no further than the
/// last full window): the selection is kept inside the window.
pub open spec fn scroll_down_result(a: App, lines: usize) -> App {
    let len = a.filtered().len() as int;
    let s = if lines == 0 || a.scroll_offset + a.list_height >= len {
        a.scroll_offset as int
    } else {
        min_int(a.scroll_offset + lines, len - a.list_height)
    };
    App {
        scroll_offset: s as usize,
        selected: if lines > 0 && a.selected < s {
            s as usize
        } else {
            a.selected
        },
        ..a
    }
}

/// The state after scrolling the editor up by `lines` rows.
pub open spec fn editor_scroll_up_result(a: App, lines: usize) -> App {
    App { editor_scroll: sat_sub(a.editor_scroll as int, lines as int) as usize, ..a }
}

/// The state after scrolling the editor down by `lines` rows (no further than
/// the last page).
pub open spec fn editor_scroll_down_result(a: App, lines: usize) -> App {
    let max_scroll = sat_sub(a.editor_content@.len() as int, editor_page(a.list_height) as int);
    App {
        editor_scroll: if a.editor_scroll + lines <= max_scroll {
            (a.editor_scroll + lines) as usize
        } else {
            max_scroll as usize
        },
        ..a
    }
}

/// What a click at (`row`, `column`) in the editor pane does to the cursor: on
/// a text row it moves to that line (within the text) and to the clicked column
/// (within the line; 0 left of the text).
pub open spec fn editor_click_result(a: App, row: u16, column: u16) -> App {
    match a.editor_area {
        None => a,
        Some(r) => if row >= r.y + 1 && row < r.y + r.height - 1 {
            let off = row - (r.y + 1);
            let len = a.editor_content@.len() as int;
            let last = sat_sub(len, 1);
            let nl = min_int(a.editor_scroll + off, last);
            let col = if column >= r.x + 7 {
                let ll = if nl < len {
                    a.lines_view()[nl].len() as int
                } else {
                    0
                };
                min_int(column - (r.x + 7), ll)
            } else {
                0
            };
            App { editor_cursor: (nl as usize, col as usize), ..a }
        } else {
            a
        },
    }
}

/// The click arithmetic stays within `u16` and `usize`.
pub open spec fn editor_click_fits(a: App, row: u16) -> bool {
    a.editor_area matches Some(r) ==> {
        &&& r.y + 1 <= u16::MAX
        &&& row >= r.y + 1 ==> 1 <= r.y + r.height <= u16::MAX
        &&& (row >= r.y + 1 && row < r.y + r.height - 1) ==> a.editor_scroll + (row - (r.y + 1))
            <= usize::MAX && r.x + 7 <= u16::MAX
    }
}

/// The point lies in the editor pane.
pub open spec fn in_editor(a: App, row: u16, column: u16) -> bool {
    a.editor_area matches Some(r) && column >= r.x && column < r.x + r.width && row >= r.y && row
        < r.y + r.height
}

/// The listing index under the point, when the point is on a tree row.
pub open spec fn tree_index(a: App, row: u16, column: u16) -> Option<int> {
    if column < (a.tree_width as u16) && row >= 4 && row < 4 + (a.list_height as u16) {
        Some(a.scroll_offset + (row - 4))
    } else {
        None
    }
}

/// The hit tests of a left click stay within `u16` and `usize`.
pub open spec fn left_click_fits(a: App, row: u16, column: u16) -> bool {
    &&& a.editor_area matches Some(r) ==> {
        &&& column >= r.x ==> r.x + r.width <= u16::MAX
        &&& (column >= r.x && column < r.x + r.width && row >= r.y) ==> r.y + r.height <= u16::MAX
    }
    &&& in_editor(a, row, column) ==> editor_click_fits(a, row)
    &&& (!in_editor(a, row, column) && column < (a.tree_width as u16) && row >= 4) ==> 4 + (
    a.list_height as u16) <= u16::MAX
    &&& (!in_editor(a, row, column) && column < (a.tree_width as u16) && row >= 4 && row < 4 + (
    a.list_height as u16)) ==> a.scroll_offset + (row - 4) <= usize::MAX
}

/// The row change of a middle-button drag from `origin` to `row`.
pub open spec fn drag_delta(row: u16, origin: u16) -> int {
    row - origin
}

pub open spec fn abs_int(x: int) -> int {
    if x < 0 {
        -x
    } else {
        x
    }
}

/// The scroll that a middle-button drag by `delta` rows at `column` performs.
pub open spec fn drag_scroll(a: App, column: u16, delta: int) -> App {
    let lines = abs_int(delta) as usize;
    if column < (a.tree_width as u16) {
        if delta < 0 {
            scroll_up_result(a, lines)
        } else {
            scroll_down_result(a, lines)
        }
    } else {
        if delta < 0 {
            editor_scroll_up_result(a, lines)
        } else {
            editor_scroll_down_result(a, lines)
        }
    }
}

/// The scroll of a drag stays within `usize` and the tree window.
pub open spec fn drag_fits(a: App, column: u16, delta: int) -> bool {
    let lines = abs_int(delta);
    if column < (a.tree_width as u16) {
        if delta < 0 {
            a.scroll_offset + a.list_height <= usize::MAX && (a.list_height > 0 || lines
                < a.scroll_offset)
        } else {
            a.scroll_offset + a.list_height <= usize::MAX
        }
    } else {
        delta < 0 || a.editor_scroll + lines <= usize::MAX
    }
}

impl App {
    /// Scrolls the tree one page up; the selection follows into the window.
    pub fn page_up(&mut self)
        ensures
            keeps_listing(*old(self), *final(self)),
            ({
                let s = sat_sub(old(self).scroll_offset as int, old(self).list_height as int);
                *final(self) == (App {
                    scroll_offset: s as usize,
                    selected: if old(self).selected > s {
                        s as usize
                    } else {
                        old(self).selected
                    },
                    ..*old(self)
                })
            }),
    {
        if self.scroll_offset >= self.list_height {
            self.scroll_offset -= self.list_height;
        } else {
            self.scroll_offset = 0;
        }
        if self.selected > self.scroll_offset {
            self.selected = self.scroll_offset;
        }
    }

    /// Scrolls the tree one page down (no further than the last full window);
    /// the selection moves down a page, within the listing.
    pub fn page_down(&mut self)
        requires
            old(self).filtered().len() > 0,
            old(self).scroll_offset + 2 * old(self).list_height <= usize::MAX,
            old(self).selected + old(self).list_height <= usize::MAX,
        ensures
            keeps_listing(*old(self), *final(self)),
            ({
                let len = old(self).filtered().len() as int;
                let s = if old(self).scroll_offset + 2 * old(self).list_height < len {
                    old(self).scroll_offset + old(self).list_height
                } else {
                    sat_sub(len, old(self).list_height as int)
                };
                let ns = min_int(old(self).selected + old(self).list_height, len - 1);
                *final(self) == (App {
                    scroll_offset: s as usize,
                    selected: if ns > old(self).selected {
                        ns as usize
                    } else {
                        old(self).selected
                    },
                    ..*old(self)
                })
            }),
    {
        let len = self.cached_filtered.len();
        if self.scroll_offset + self.list_height * 2 < len {
            self.scroll_offset += self.list_height;
        } else {
            self.scroll_offset = if len >= self.list_height {
                len - self.list_height
            } else {
                0
            };
        }
        let moved = self.selected + self.list_height;
        let ns = if moved < len - 1 {
            moved
        } else {
            len - 1
        };
        if ns > self.selected {
            self.selected = ns;
        }
    }

    /// Scrolls the tree up row by row.
    pub fn scroll_up(&mut self, lines: usize)
        requires
            lines > 0 ==> old(self).scroll_offset + old(self).list_height <= usize::MAX,
            lines > 0 ==> (old(self).list_height > 0 || lines < old(self).scroll_offset),
        ensures
            keeps_listing(*old(self), *final(self)),
            *final(self) == scroll_up_result(*old(self), lines),
    {
        let mut k: usize = 0;
        while k < lines
            invariant
                k <= lines,
                old(self).scroll_offset + old(self).list_height <= usize::MAX || lines == 0,
                lines > 0 ==> (old(self).list_height > 0 || lines < old(self).scroll_offset),
                *self == (if k == 0 {
                    *old(self)
                } else {
                    scroll_up_result(*old(self), k)
                }),
            decreases lines - k,
        {
            if self.scroll_offset > 0 {
                self.scroll_offset -= 1;
            }
            if self.selected > self.scroll_offset + self.list_height - 1 {
                self.selected = self.scroll_offset + self.list_height - 1;
            }
            k += 1;
        }
    }

    /// Scrolls the tree down row by row, no further than the last full window.
    pub fn scroll_down(&mut self, lines: usize)
        requires
            lines > 0 ==> old(self).scroll_offset + old(self).list_height <= usize::MAX,
        ensures
            keeps_listing(*old(self), *final(self)),
            *final(self) == scroll_down_result(*old(self), lines),
    {
        let len = self.cached_filtered.len();
        let mut k: usize = 0;
        while k < lines
            invariant
                k <= lines,
                len == old(self).filtered().len(),
                len == self.filtered().len(),
                lines > 0 ==> old(self).scroll_offset + old(self).list_height <= usize::MAX,
                *self == (if k == 0 {
                    *old(self)
                } else {
                    scroll_down_result(*old(self), k)
                }),
            decreases lines - k,
        {
            if self.scroll_offset + self.list_height < len {
                self.scroll_offset += 1;
            }
            if self.selected < self.scroll_offset {
                self.selected = self.scroll_offset;
            }
            k += 1;
        }
    }

    /// Scrolls the editor up by `lines` rows.
    pub fn editor_scroll_up(&mut self, lines: usize)
        ensures
            keeps_listing(*old(self), *final(self)),
            *final(self) == editor_scroll_up_result(*old(self), lines),
    {
        if self.editor_scroll >= lines {
            self.editor_scroll -= lines;
        } else {
            self.editor_scroll = 0;
        }
    }

    /// Scrolls the editor down by `lines` rows, no further than the last page.
    pub fn editor_scroll_down(&mut self, lines: usize)
        requires
            old(self).editor_scroll + lines <= usize::MAX,
        ensures
            keeps_listing(*old(self), *final(self)),
            *final(self) == editor_scroll_down_result(*old(self), lines),
    {
        let visible = if self.list_height > 10 {
            self.list_height
        } else {
            10
        };
        let len = self.editor_content.len();
        let max_scroll = if len >= visible {
            len - visible
        } else {
            0
        };
        if self.editor_scroll + lines <= max_scroll {
            self.editor_scroll += lines;
        } else {
            self.editor_scroll = max_scroll;
        }
    }

    /// Moves the editor cursor to a clicked position.
    pub fn editor_mouse_click(&mut self, row: u16, column: u16)
        requires
            editor_click_fits(*old(self), row),
        ensures
            keeps_listing(*old(self), *final(self)),
            *final(self) == editor_click_result(*old(self), row, column),
    {
        match self.editor_area {
            None => {},
            Some(area) => {
                if row >= area.y + 1 && row < area.y + area.height - 1 {
                    let off = (row - (area.y + 1)) as usize;
                    let len = self.editor_content.len();
                    let last = if len > 0 {
                        len - 1
                    } else {
                        0
                    };
                    let nl = if self.editor_scroll + off < last {
                        self.editor_scroll + off
                    } else {
                        last
                    };
                    self.editor_cursor.0 = nl;
                    let start = area.x + 7;
                    if column >= start {
                        let co = (column - start) as usize;
                        let ll = if nl < len {
                            self.editor_content[nl].as_str().unicode_len()
                        } else {
                            0
                        };
                        self.editor_cursor.1 = if co < ll {
                            co
                        } else {
                            ll
                        };
                    } else {
                        self.editor_cursor.1 = 0;
                    }
                }
            },
        }
    }

    /// Ends a middle-button drag.
    pub fn stop_middle_drag(&mut self)
        ensures
            keeps_listing(*old(self), *final(self)),
            *final(self) == (App { is_middle_dragging: false, middle_drag_origin: None, ..*old(self) }),
    {
        self.is_middle_dragging = false;
        self.middle_drag_origin = None;
    }

    /// Handles a mouse press at (`row`, `column`). A left click in the editor
    /// focuses it and moves the cursor; on a tree row it selects the entry, or,
    /// when the entry is already selected, collapses or expands a directory or
    /// opens a file (which is then to be loaded, with the focus left on the tree).
    /// A middle press starts a drag. The hover position is recorded in every case.
    /// The flag says whether a tree row took the click.
    pub fn handle_mouse_click(&mut self, row: u16, column: u16, kind: MouseKind) -> (r: (bool, Followup))
        requires
            kind == MouseKind::LeftDown ==> left_click_fits(
                App { hover_row: Some(row), hover_col: Some(column), ..*old(self) },
                row,
                column,
            ),
        ensures
            !(r.1 is Refresh) ==> keeps_listing(*old(self), *final(self)),
            ({
                let h = App { hover_row: Some(row), hover_col: Some(column), ..*old(self) };
                match kind {
                    MouseKind::LeftDown => if in_editor(h, row, column) {
                        !r.0 && r.1 is Done && *final(self) == editor_click_result(
                            App { focus: FocusArea::Editor, ..h },
                            row,
                            column,
                        )
                    } else if tree_index(h, row, column) is Some && tree_index(h, row, column).unwrap()
                        < h.filtered().len() {
                        let idx = tree_index(h, row, column).unwrap();
                        &&& r.0
                        &&& if h.selected == idx {
                            match h.entry_at(idx) {
                                None => *final(self) == (App { focus: FocusArea::Tree, ..h }) && r.1 is Done,
                                Some(f) => if f.is_dir {
                                    exists|mid: App, needs: bool|
                                        collapse_toggled(h, mid, needs) && *final(self) == (App {
                                            focus: FocusArea::Tree,
                                            ..mid
                                        }) && (if needs {
                                            r.1 is Refresh
                                        } else {
                                            r.1 is Done
                                        })
                                } else {
                                    *final(self) == (App { focus: FocusArea::Tree, ..h }) && (r.1 matches Followup::Load(p)
                                        && p@ == f.path@)
                                },
                            }
                        } else {
                            *final(self) == (App { selected: idx as usize, focus: FocusArea::Tree, ..h })
                                && r.1 is Done
                        }
                    } else {
                        !r.0 && r.1 is Done && *final(self) == h
                    },
                    MouseKind::MiddleDown => !r.0 && r.1 is Done && *final(self) == (App {
                        middle_drag_origin: Some(row),
                        is_middle_dragging: true,
                        ..h
                    }),
                    MouseKind::Other => !r.0 && r.1 is Done && *final(self) == h,
                }
            }),
    {
        self.hover_row = Some(row);
        self.hover_col = Some(column);
        match kind {
            MouseKind::LeftDown => {
                match self.editor_area {
                    Some(area) => {
                        if column >= area.x && column < area.x + area.width && row >= area.y && row
                            < area.y + area.height {
                            self.focus = FocusArea::Editor;
                            self.editor_mouse_click(row, column);
                            return (false, Followup::Done);
                        }
                    },
                    None => {},
                }
                if column < (self.tree_width as u16) {
                    if row >= 4 && row < 4 + (self.list_height as u16) {
                        let item = (row - 4) as usize;
                        let actual = self.scroll_offset + item;
                        if actual < self.cached_filtered.len() {
                            let mut follow = Followup::Done;
                            if self.selected == actual {
                                let info = match self.get_file_by_index(actual) {
                                    Some(f) => Some(f.is_dir),
                                    None => None,
                                };
                                match info {
                                    Some(true) => {
                                        let ghost h = *self;
                                        let needs = self.toggle_collapse();
                                        proof {
                                            assert(collapse_toggled(h, *self, needs));
                                        }
                                        if needs {
                                            follow = Followup::Refresh;
                                        }
                                    },
                                    Some(false) => {
                                        follow = self.open_editor();
                                    },
                                    None => {},
                                }
                            } else {
                                self.selected = actual;
                            }
                            self.focus = FocusArea::Tree;
                            return (true, follow);
                        }
                    }
                }
                (false, Followup::Done)
            },
            MouseKind::MiddleDown => {
                self.middle_drag_origin = Some(row);
                self.is_middle_dragging = true;
                (false, Followup::Done)
            },
            MouseKind::Other => (false, Followup::Done),
        }
    }

    /// Scrolls the pane under the pointer by the rows the pointer moved since
    /// the last drag event, while a middle-button drag is on.
    pub fn handle_middle_drag(&mut self, row: u16, column: u16)
        requires
            old(self).is_middle_dragging && old(self).middle_drag_origin is Some ==> drag_fits(
                *old(self),
                column,
                drag_delta(row, old(self).middle_drag_origin.unwrap()),
            ),
        ensures
            keeps_listing(*old(self), *final(self)),
            *final(self) == (if old(self).is_middle_dragging && old(self).middle_drag_origin is Some
                && drag_delta(row, old(self).middle_drag_origin.unwrap()) != 0 {
                App {
                    middle_drag_origin: Some(row),
                    ..drag_scroll(
                        *old(self),
                        column,
                        drag_delta(row, old(self).middle_drag_origin.unwrap()),
                    )
                }
            } else {
                *old(self)
            }),
    {
        if !self.is_middle_dragging {
            return;
        }
        match self.middle_drag_origin {
            Some(origin) => {
                let delta = row as i32 - origin as i32;
                if delta != 0 {
                    let lines = (if delta < 0 {
                        -delta
                    } else {
                        delta
                    }) as usize;
                    if column < (self.tree_width as u16) {
                        if delta < 0 {
                            self.scroll_up(lines);
                        } else {
                            self.scroll_down(lines);
                        }
                    } else {
                        if delta < 0 {
                            self.editor_scroll_up(lines);
                        } else {
                            self.editor_scroll_down(lines);
                        }
                    }
                    self.middle_drag_origin = Some(row);
                }
            },
            None => {},
        }
    }
}

} // verus!
