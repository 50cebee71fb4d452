use vstd::prelude::*;
use std::collections::HashMap;
use crate::app::{collapse_toggled, keeps_listing, App, FocusArea, Rect};
use crate::git::DiffLineType;
use crate::text::{
    chars_of, join_lines, lines_of, lines_spec, push_char, string_of,
    string_views,
};

verus! {

/// What the application must do after `App::open_editor`.
pub enum Followup {
    /// Nothing more.
    Done,
    /// Read the tree again (`refresh_files`), then `clamp_selected`.
    Refresh,
    /// Read the file at this path (relative to the working directory) and hand
    /// it to `load_editor`.
    Load(String),
}

/// Lines of text as character sequences.
pub open spec fn text_of(v: Seq<Vec<String>>) -> Seq<Seq<Seq<char>>> {
    v.map_values(|x: Vec<String>| string_views(x@))
}

/// The undo history after saving `lines`: at most 100 snapshots, the oldest
/// dropped first.
pub open spec fn pushed_undo(u: Seq<Seq<Seq<char>>>, lines: Seq<Seq<char>>) -> Seq<Seq<Seq<char>>> {
    (if u.len() >= 100 {
        u.drop_first()
    } else {
        u
    }).push(lines)
}

/// The first `n` characters (all of them when there are fewer).
pub open spec fn take_chars(s: Seq<char>, n: int) -> Seq<char> {
    if n >= s.len() {
        s
    } else {
        s.take(n)
    }
}

/// What follows the first `n` characters (nothing when there are fewer).
pub open spec fn skip_chars(s: Seq<char>, n: int) -> Seq<char> {
    if n >= s.len() {
        Seq::<char>::empty()
    } else {
        s.skip(n)
    }
}

/// Rows the editor pages by: the list height, at least 10.
pub open spec fn editor_page(list_height: usize) -> usize {
    if list_height > 10 {
        list_height
    } else {
        10
    }
}

/// What `App::editor_undo` does: the last saved lines come back (the cursor
/// line kept inside them); nothing happens when no lines were saved.
pub open spec fn undo_step(pre: App, post: App) -> bool {
    &&& pre.editor_undo_stack@.len() == 0 ==> post == pre
    &&& pre.editor_undo_stack@.len() > 0 ==> {
        let prev = pre.editor_undo_stack@.last();
        let n = prev@.len();
        &&& post.editor_undo_stack@ == pre.editor_undo_stack@.drop_last()
        &&& post == (App {
            editor_content: prev,
            editor_undo_stack: post.editor_undo_stack,
            editor_modified: true,
            editor_cursor: (if pre.editor_cursor.0 >= n {
                if n == 0 {
                    0usize
                } else {
                    (n - 1) as usize
                }
            } else {
                pre.editor_cursor.0
            }, pre.editor_cursor.1),
            ..pre
        })
    }
}

/// What `App::editor_backspace` does: the lines are saved for undo; the
/// character before the cursor goes, or at the start of a line that line joins
/// the one above (the cursor moves to where that line ended); at the start of the
/// first line nothing else changes.
pub open spec fn backspace_step(pre: App, post: App) -> bool {
    &&& post.undo_view() == pushed_undo(pre.undo_view(), pre.lines_view())
    &&& ({
        let (row, col) = pre.editor_cursor;
        let ls = pre.lines_view();
        if col > 0 {
            &&& post.lines_view() == ls.update(row as int, ls[row as int].remove(col - 1))
            &&& post == (App {
                editor_content: post.editor_content,
                editor_undo_stack: post.editor_undo_stack,
                editor_cursor: (row, (col - 1) as usize),
                editor_modified: true,
                ..pre
            })
        } else if row > 0 {
            &&& post.lines_view() == ls.update(row - 1, ls[row - 1] + ls[row as int]).remove(
                row as int,
            )
            &&& post == (App {
                editor_content: post.editor_content,
                editor_undo_stack: post.editor_undo_stack,
                editor_cursor: ((row - 1) as usize, ls[row - 1].len() as usize),
                editor_modified: true,
                ..pre
            })
        } else {
            post == (App { editor_undo_stack: post.editor_undo_stack, ..pre })
        }
    })
}

/// What `App::editor_delete` does: the lines are saved for undo; the character
/// under the cursor goes, or at the end of a line the next line joins it; at the
/// end of the last line nothing else changes.
pub open spec fn delete_step(pre: App, post: App) -> bool {
    &&& post.undo_view() == pushed_undo(pre.undo_view(), pre.lines_view())
    &&& ({
        let (row, col) = pre.editor_cursor;
        let ls = pre.lines_view();
        if col < ls[row as int].len() {
            &&& post.lines_view() == ls.update(row as int, ls[row as int].remove(col as int))
            &&& post == (App {
                editor_content: post.editor_content,
                editor_undo_stack: post.editor_undo_stack,
                editor_modified: true,
                ..pre
            })
        } else if row + 1 < ls.len() {
            &&& post.lines_view() == ls.update(row as int, ls[row as int] + ls[row + 1]).remove(
                row + 1,
            )
            &&& post == (App {
                editor_content: post.editor_content,
                editor_undo_stack: post.editor_undo_stack,
                editor_modified: true,
                ..pre
            })
        } else {
            post == (App { editor_undo_stack: post.editor_undo_stack, ..pre })
        }
    })
}

/// What `App::editor_insert` does: the lines are saved for undo, the character
/// goes in at the cursor and the cursor moves past it.
pub open spec fn insert_step(pre: App, post: App, c: char) -> bool {
    &&& post.undo_view() == pushed_undo(pre.undo_view(), pre.lines_view())
    &&& ({
        let (row, col) = pre.editor_cursor;
        let ls = pre.lines_view();
        &&& post.lines_view() == ls.update(row as int, ls[row as int].insert(col as int, c))
        &&& post == (App {
            editor_content: post.editor_content,
            editor_undo_stack: post.editor_undo_stack,
            editor_cursor: (row, (col + 1) as usize),
            editor_modified: true,
            ..pre
        })
    })
}

/// What `App::editor_insert_newline` does: the lines are saved for undo, the
/// line is split at the cursor and the cursor moves to the start of the new line.
pub open spec fn newline_step(pre: App, post: App) -> bool {
    &&& post.undo_view() == pushed_undo(pre.undo_view(), pre.lines_view())
    &&& ({
        let (row, col) = pre.editor_cursor;
        let ls = pre.lines_view();
        &&& post.lines_view() == ls.update(row as int, take_chars(ls[row as int], col as int)).insert(
            row + 1,
            skip_chars(ls[row as int], col as int),
        )
        &&& post == (App {
            editor_content: post.editor_content,
            editor_undo_stack: post.editor_undo_stack,
            editor_cursor: ((row + 1) as usize, 0usize),
            editor_modified: true,
            ..pre
        })
    })
}

/// The state with the keyboard focus on the other pane.
pub open spec fn focus_switched(a: App) -> App {
    App {
        focus: match a.focus {
            FocusArea::Tree => FocusArea::Editor,
            FocusArea::Editor => FocusArea::Tree,
        },
        ..a
    }
}

/// Copies of the lines.
fn clone_lines(v: &Vec<String>) -> (r: Vec<String>)
    ensures
        r@ == v@,
{
    let mut r: Vec<String> = Vec::new();
    let mut i: usize = 0;
    while i < v.len()
        invariant
            i <= v@.len(),
            r@ == v@.take(i as int),
        decreases v@.len() - i,
    {
        r.push(v[i].clone());
        i += 1;
        proof {
            assert(r@ =~= v@.take(i as int));
        }
    }
    proof {
        assert(v@.take(i as int) =~= v@);
    }
    r
}

impl App {
    /// The editor's lines.
    pub open spec fn lines_view(&self) -> Seq<Seq<char>> {
        string_views(self.editor_content@)
    }

    /// The undo history, oldest first.
    pub open spec fn undo_view(&self) -> Seq<Seq<Seq<char>>> {
        text_of(self.editor_undo_stack@)
    }

    /// Opens the selected entry: a directory is collapsed or expanded (as
    /// `toggle_collapse` does); a file gets the focus and is to be loaded.
    pub fn open_editor(&mut self) -> (r: Followup)
        ensures
            !(r is Refresh) ==> keeps_listing(*old(self), *final(self)),
            match old(self).entry_at(old(self).selected as int) {
                None => *final(self) == *old(self) && r is Done,
                Some(f) => if f.is_dir {
                    exists|needs: bool|
                        collapse_toggled(*old(self), *final(self), needs) && (if needs {
                            r is Refresh
                        } else {
                            r is Done
                        })
                } else {
                    *final(self) == (App { focus: FocusArea::Editor, ..*old(self) }) && (r matches Followup::Load(p) && p@ == f.path@)
                },
            },
    {
        let info = match self.selected_file() {
            Some(f) => Some((f.is_dir, f.path.clone())),
            None => None,
        };
        match info {
            None => Followup::Done,
            Some((is_dir, path)) => {
                if is_dir {
                    let needs = self.toggle_collapse();
                    if needs {
                        Followup::Refresh
                    } else {
                        Followup::Done
                    }
                } else {
                    self.focus = FocusArea::Editor;
                    Followup::Load(path)
                }
            },
        }
    }

    /// Puts a file into the editor: its lines (as `str::lines` splits them),
    /// also kept as the original for comparison, the cursor and scroll at the
    /// start, no changes, an empty undo history and the given gutter marks.
    pub fn load_editor(&mut self, editor_path: String, content: &str, diff_lines: HashMap<usize, DiffLineType>)
        ensures
            keeps_listing(*old(self), *final(self)),
            final(self).lines_view() == lines_spec(content@),
            final(self).editor_original_content@ == final(self).editor_content@,
            final(self).editor_undo_stack@.len() == 0,
            *final(self) == (App {
                editor_path,
                editor_content: final(self).editor_content,
                editor_original_content: final(self).editor_original_content,
                editor_cursor: (0, 0),
                editor_scroll: 0,
                editor_h_scroll: 0,
                editor_modified: false,
                editor_undo_stack: final(self).editor_undo_stack,
                editor_diff_lines: diff_lines,
                ..*old(self)
            }),
    {
        self.editor_path = editor_path;
        self.editor_content = lines_of(content);
        self.editor_original_content = clone_lines(&self.editor_content);
        self.editor_cursor = (0, 0);
        self.editor_scroll = 0;
        self.editor_h_scroll = 0;
        self.editor_modified = false;
        self.editor_undo_stack = Vec::new();
        self.editor_diff_lines = diff_lines;
    }

    /// Moves the cursor one line up, keeping the column inside the line and the
    /// cursor inside the window.
    pub fn editor_up(&mut self)
        requires
            old(self).editor_cursor.0 > 0 ==> old(self).editor_cursor.0 - 1 < old(self).editor_content@.len(),
        ensures
            keeps_listing(*old(self), *final(self)),
            *final(self) == (if old(self).editor_cursor.0 > 0 {
                let r = (old(self).editor_cursor.0 - 1) as usize;
                let n = old(self).lines_view()[r as int].len();
                App {
                    editor_cursor: (r, if old(self).editor_cursor.1 > n {
                        n as usize
                    } else {
                        old(self).editor_cursor.1
                    }),
                    editor_scroll: if old(self).editor_scroll > r {
                        r
                    } else {
                        old(self).editor_scroll
                    },
                    ..*old(self)
                }
            } else {
                *old(self)
            }),
    {
        if self.editor_cursor.0 > 0 {
            self.editor_cursor.0 -= 1;
            let n = self.editor_content[self.editor_cursor.0].as_str().unicode_len();
            if self.editor_cursor.1 > n {
                self.editor_cursor.1 = n;
            }
            if self.editor_scroll > self.editor_cursor.0 {
                self.editor_scroll = self.editor_cursor.0;
            }
        }
    }

    /// Moves the cursor one line down, keeping the column inside the line and
    /// the cursor inside the window.
    pub fn editor_down(&mut self)
        requires
            old(self).editor_cursor.0 + 1 < old(self).editor_content@.len() ==> old(self).editor_scroll
                + editor_page(old(self).list_height) <= usize::MAX,
        ensures
            keeps_listing(*old(self), *final(self)),
            *final(self) == (if old(self).editor_cursor.0 + 1 < old(self).editor_content@.len() {
                let r = (old(self).editor_cursor.0 + 1) as usize;
                let n = old(self).lines_view()[r as int].len();
                let v = editor_page(old(self).list_height);
                App {
                    editor_cursor: (r, if old(self).editor_cursor.1 > n {
                        n as usize
                    } else {
                        old(self).editor_cursor.1
                    }),
                    editor_scroll: if r >= old(self).editor_scroll + v {
                        (r - v + 1) as usize
                    } else {
                        old(self).editor_scroll
                    },
                    ..*old(self)
                }
            } else {
                *old(self)
            }),
    {
        let last = if self.editor_content.len() > 0 {
            self.editor_content.len() - 1
        } else {
            0
        };
        if self.editor_cursor.0 < last {
            self.editor_cursor.0 += 1;
            let n = self.editor_content[self.editor_cursor.0].as_str().unicode_len();
            if self.editor_cursor.1 > n {
                self.editor_cursor.1 = n;
            }
            let visible = if self.list_height > 10 {
                self.list_height
            } else {
                10
            };
            if self.editor_cursor.0 >= self.editor_scroll + visible {
                self.editor_scroll = self.editor_cursor.0 - visible + 1;
            }
        }
    }

    /// Scrolls the editor one page up; the cursor follows into the window.
    pub fn editor_page_up(&mut self)
        ensures
            keeps_listing(*old(self), *final(self)),
            ({
                let v = editor_page(old(self).list_height);
                let s = if old(self).editor_scroll >= v {
                    (old(self).editor_scroll - v) as usize
                } else {
                    0usize
                };
                *final(self) == (App {
                    editor_scroll: s,
                    editor_cursor: (if old(self).editor_cursor.0 < s {
                        s
                    } else {
                        old(self).editor_cursor.0
                    }, old(self).editor_cursor.1),
                    ..*old(self)
                })
            }),
    {
        let visible = if self.list_height > 10 {
            self.list_height
        } else {
            10
        };
        if self.editor_scroll >= visible {
            self.editor_scroll -= visible;
        } else {
            self.editor_scroll = 0;
        }
        if self.editor_cursor.0 < self.editor_scroll {
            self.editor_cursor.0 = self.editor_scroll;
        }
    }

    /// Scrolls the editor one page down (no further than the last page); the
    /// cursor follows into the window.
    pub fn editor_page_down(&mut self)
        requires
            old(self).editor_scroll + 2 * editor_page(old(self).list_height) <= usize::MAX,
        ensures
            keeps_listing(*old(self), *final(self)),
            ({
                let v = editor_page(old(self).list_height);
                let len = old(self).editor_content@.len();
                let max_scroll = if len >= v {
                    (len - v) as usize
                } else {
                    0usize
                };
                let s = if old(self).editor_scroll + 2 * v <= len {
                    (old(self).editor_scroll + v) as usize
                } else {
                    max_scroll
                };
                let last = if len > 0 {
                    (len - 1) as usize
                } else {
                    0usize
                };
                let lim = if s + v - 1 < last {
                    (s + v - 1) as usize
                } else {
                    last
                };
                *final(self) == (App {
                    editor_scroll: s,
                    editor_cursor: (if old(self).editor_cursor.0 > lim {
                        lim
                    } else {
                        old(self).editor_cursor.0
                    }, old(self).editor_cursor.1),
                    ..*old(self)
                })
            }),
    {
        let visible = if self.list_height > 10 {
            self.list_height
        } else {
            10
        };
        let len = self.editor_content.len();
        let max_scroll = if len >= visible {
            len - visible
        } else {
            0
        };
        if self.editor_scroll + visible * 2 <= len {
            self.editor_scroll += visible;
        } else {
            self.editor_scroll = max_scroll;
        }
        let max_cursor = self.editor_scroll + visible - 1;
        let last = if len > 0 {
            len - 1
        } else {
            0
        };
        let lim = if max_cursor < last {
            max_cursor
        } else {
            last
        };
        if self.editor_cursor.0 > lim {
            self.editor_cursor.0 = lim;
        }
    }

    /// Moves the cursor one character left.
    pub fn editor_left(&mut self)
        ensures
            keeps_listing(*old(self), *final(self)),
            *final(self) == (App {
                editor_cursor: (old(self).editor_cursor.0, if old(self).editor_cursor.1 > 0 {
                    (old(self).editor_cursor.1 - 1) as usize
                } else {
                    0usize
                }),
                ..*old(self)
            }),
    {
        if self.editor_cursor.1 > 0 {
            self.editor_cursor.1 -= 1;
        }
    }

    /// Moves the cursor one character right, up to the end of the line.
    pub fn editor_right(&mut self)
        requires
            old(self).editor_cursor.0 < old(self).editor_content@.len(),
        ensures
            keeps_listing(*old(self), *final(self)),
            *final(self) == (App {
                editor_cursor: (old(self).editor_cursor.0, if old(self).editor_cursor.1 < old(
                    self,
                ).lines_view()[old(self).editor_cursor.0 as int].len() {
                    (old(self).editor_cursor.1 + 1) as usize
                } else {
                    old(self).editor_cursor.1
                }),
                ..*old(self)
            }),
    {
        let n = self.editor_content[self.editor_cursor.0].as_str().unicode_len();
        if self.editor_cursor.1 < n {
            self.editor_cursor.1 += 1;
        }
    }

    /// Saves the current lines in the undo history (at most 100 kept).
    fn push_undo(&mut self)
        ensures
            final(self).undo_view() == pushed_undo(old(self).undo_view(), old(self).lines_view()),
            *final(self) == (App { editor_undo_stack: final(self).editor_undo_stack, ..*old(self) }),
    {
        let ghost u0 = self.undo_view();
        if self.editor_undo_stack.len() >= 100 {
            self.editor_undo_stack.remove(0);
            proof {
                assert(self.undo_view() =~= u0.drop_first());
            }
        }
        let ghost u1 = self.undo_view();
        let snapshot = clone_lines(&self.editor_content);
        self.editor_undo_stack.push(snapshot);
        proof {
            assert(self.undo_view() =~= u1.push(string_views(snapshot@)));
        }
    }

    /// Restores the last saved lines; the cursor line is kept inside them.
    pub fn editor_undo(&mut self)
        ensures
            keeps_listing(*old(self), *final(self)),
            undo_step(*old(self), *final(self)),
    {
        if self.editor_undo_stack.len() == 0 {
            return;
        }
        match self.editor_undo_stack.pop() {
            Some(prev) => {
                self.editor_content = prev;
                self.editor_modified = true;
                if self.editor_cursor.0 >= self.editor_content.len() {
                    self.editor_cursor.0 = if self.editor_content.len() == 0 {
                        0
                    } else {
                        self.editor_content.len() - 1
                    };
                }
            },
            None => {},
        }
    }

    /// Deletes the character before the cursor, or joins the line to the one
    /// above when the cursor is at its start (the cursor then stands where the
    /// line above ended). The lines are saved for undo first.
    pub fn editor_backspace(&mut self)
        requires
            old(self).editor_cursor.1 > 0 ==> old(self).editor_cursor.0 < old(self).editor_content@.len()
                && old(self).editor_cursor.1 - 1 < old(self).lines_view()[old(self).editor_cursor.0 as int].len(),
            old(self).editor_cursor.1 == 0 && old(self).editor_cursor.0 > 0 ==> old(self).editor_cursor.0
                < old(self).editor_content@.len(),
        ensures
            keeps_listing(*old(self), *final(self)),
            backspace_step(*old(self), *final(self)),
    {
        self.push_undo();
        let row = self.editor_cursor.0;
        let col = self.editor_cursor.1;
        if col > 0 {
            let mut cs = chars_of(self.editor_content[row].as_str());
            cs.remove(col - 1);
            let line = string_of(cs.as_slice(), 0, cs.len());
            proof {
                assert(cs@.subrange(0, cs@.len() as int) =~= cs@);
            }
            self.editor_content.set(row, line);
            self.editor_cursor.1 = col - 1;
            self.editor_modified = true;
            proof {
                assert(self.lines_view() =~= old(self).lines_view().update(
                    row as int,
                    old(self).lines_view()[row as int].remove(col - 1),
                ));
            }
        } else if row > 0 {
            let pcs = chars_of(self.editor_content[row - 1].as_str());
            let prev_len = pcs.len();
            let cur = self.editor_content.remove(row);
            let mut merged = self.editor_content[row - 1].clone();
            merged.append(cur.as_str());
            self.editor_content.set(row - 1, merged);
            self.editor_cursor = (row - 1, prev_len);
            self.editor_modified = true;
            proof {
                let ls = old(self).lines_view();
                assert(self.lines_view() =~= ls.update(row - 1, ls[row - 1] + ls[row as int]).remove(
                    row as int,
                ));
            }
        }
    }

    /// Deletes the character under the cursor, or joins the next line to this
    /// one when the cursor is at the end. The lines are saved for undo first.
    pub fn editor_delete(&mut self)
        requires
            old(self).editor_cursor.0 < old(self).editor_content@.len(),
        ensures
            keeps_listing(*old(self), *final(self)),
            delete_step(*old(self), *final(self)),
    {
        self.push_undo();
        let row = self.editor_cursor.0;
        let col = self.editor_cursor.1;
        let mut cs = chars_of(self.editor_content[row].as_str());
        if col < cs.len() {
            cs.remove(col);
            let line = string_of(cs.as_slice(), 0, cs.len());
            proof {
                assert(cs@.subrange(0, cs@.len() as int) =~= cs@);
            }
            self.editor_content.set(row, line);
            self.editor_modified = true;
            proof {
                assert(self.lines_view() =~= old(self).lines_view().update(
                    row as int,
                    old(self).lines_view()[row as int].remove(col as int),
                ));
            }
        } else if row < self.editor_content.len() - 1 {
            let next = self.editor_content.remove(row + 1);
            let mut merged = self.editor_content[row].clone();
            merged.append(next.as_str());
            self.editor_content.set(row, merged);
            self.editor_modified = true;
            proof {
                let ls = old(self).lines_view();
                assert(self.lines_view() =~= ls.update(row as int, ls[row as int] + ls[row + 1]).remove(
                    row + 1,
                ));
            }
        }
    }

    /// Inserts a character at the cursor and moves past it. The lines are saved
    /// for undo first.
    pub fn editor_insert(&mut self, c: char)
        requires
            old(self).editor_cursor.0 < old(self).editor_content@.len(),
            old(self).editor_cursor.1 <= old(self).lines_view()[old(self).editor_cursor.0 as int].len(),
        ensures
            keeps_listing(*old(self), *final(self)),
            insert_step(*old(self), *final(self), c),
    {
        self.push_undo();
        let row = self.editor_cursor.0;
        let col = self.editor_cursor.1;
        let mut cs = chars_of(self.editor_content[row].as_str());
        cs.insert(col, c);
        let n = cs.len();
        let line = string_of(cs.as_slice(), 0, n);
        proof {
            assert(cs@.subrange(0, cs@.len() as int) =~= cs@);
        }
        self.editor_content.set(row, line);
        self.editor_cursor.1 = col + 1;
        self.editor_modified = true;
        proof {
            assert(self.lines_view() =~= old(self).lines_view().update(
                row as int,
                old(self).lines_view()[row as int].insert(col as int, c),
            ));
        }
    }

    /// Splits the line at the cursor; the cursor moves to the start of the new
    /// line. The lines are saved for undo first.
    pub fn editor_insert_newline(&mut self)
        requires
            old(self).editor_cursor.0 < old(self).editor_content@.len(),
        ensures
            keeps_listing(*old(self), *final(self)),
            newline_step(*old(self), *final(self)),
    {
        self.push_undo();
        let row = self.editor_cursor.0;
        let col = self.editor_cursor.1;
        let cs = chars_of(self.editor_content[row].as_str());
        let cut = if col < cs.len() {
            col
        } else {
            cs.len()
        };
        let before = string_of(cs.as_slice(), 0, cut);
        let after = string_of(cs.as_slice(), cut, cs.len());
        proof {
            assert(before@ =~= take_chars(cs@, col as int));
            assert(after@ =~= skip_chars(cs@, col as int));
        }
        let len = self.editor_content.len();
        self.editor_content.set(row, before);
        assert(row < len);
        self.editor_content.insert(row + 1, after);
        self.editor_cursor = (row + 1, 0);
        self.editor_modified = true;
        proof {
            let ls = old(self).lines_view();
            assert(self.lines_view() =~= ls.update(row as int, take_chars(ls[row as int], col as int)).insert(
                row + 1,
                skip_chars(ls[row as int], col as int),
            ));
        }
    }

    /// The editor's lines joined with `\n` (what saving writes).
    pub fn editor_text(&self) -> (r: String)
        ensures
            r@ == join_lines(self.lines_view()),
    {
        let ghost ls = self.lines_view();
        let mut out = String::new();
        let mut i: usize = 0;
        while i < self.editor_content.len()
            invariant
                i <= self.editor_content@.len(),
                ls == self.lines_view(),
                out@ == join_lines(ls.take(i as int)),
            decreases self.editor_content@.len() - i,
        {
            let ghost before = out@;
            if i > 0 {
                push_char(&mut out, '\n');
            }
            out.append(self.editor_content[i].as_str());
            proof {
                let t = ls.take(i + 1);
                assert(t.drop_last() =~= ls.take(i as int));
                assert(t.last() == ls[i as int]);
                if i == 0 {
                    assert(join_lines(ls.take(0)) =~= Seq::<char>::empty());
                    assert(out@ =~= t[0]);
                } else {
                    assert(out@ =~= join_lines(t.drop_last()) + seq!['\n'] + t.last());
                }
            }
            i += 1;
        }
        proof {
            assert(ls.take(i as int) =~= ls);
        }
        out
    }

    /// Records a successful save: no unsaved changes, and a message saying so.
    pub fn mark_saved(&mut self)
        ensures
            keeps_listing(*old(self), *final(self)),
            final(self).status_message matches Some(m) && m@ == "✓ 文件已保存"@,
            *final(self) == (App {
                editor_modified: false,
                status_message: final(self).status_message,
                ..*old(self)
            }),
    {
        self.editor_modified = false;
        self.status_message = Some("✓ 文件已保存".to_owned());
    }

    /// Leaves the editor for the tree; unsaved changes are reported as dropped.
    /// The result says whether a message was posted.
    pub fn exit_editor(&mut self) -> (posted: bool)
        ensures
            keeps_listing(*old(self), *final(self)),
            posted == old(self).editor_modified,
            posted ==> (final(self).status_message matches Some(m) && m@ == "⚠ 未保存的修改已丢弃"@),
            *final(self) == (App {
                focus: FocusArea::Tree,
                status_message: if posted {
                    final(self).status_message
                } else {
                    old(self).status_message
                },
                ..*old(self)
            }),
    {
        let posted = self.editor_modified;
        if posted {
            self.status_message = Some("⚠ 未保存的修改已丢弃".to_owned());
        }
        self.focus = FocusArea::Tree;
        posted
    }

    /// Moves the keyboard focus to the other pane.
    pub fn toggle_focus(&mut self)
        ensures
            keeps_listing(*old(self), *final(self)),
            *final(self) == focus_switched(*old(self)),
    {
        self.focus = match self.focus {
            FocusArea::Tree => FocusArea::Editor,
            FocusArea::Editor => FocusArea::Tree,
        };
    }

    /// Records where the editor pane is on screen.
    pub fn set_editor_area(&mut self, area: Rect)
        ensures
            keeps_listing(*old(self), *final(self)),
            *final(self) == (App { editor_area: Some(area), ..*old(self) }),
    {
        self.editor_area = Some(area);
    }
}

} // verus!
