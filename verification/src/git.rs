use vstd::prelude::*;
use crate::text::chars_of;

verus! {

/// Git status of a file, as `git status --porcelain` reports it.
#[derive(Debug, Clone, Copy, PartialEq, Eq, Structural)]
pub enum GitStatus {
    Modified,
    Added,
    Deleted,
    Untracked,
    Renamed,
    Copied,
    Unmerged,
    Ignored,
    Clean,
}

/// Kind of change a diff marks on an editor line.
#[derive(Debug, Clone, Copy, PartialEq, Eq, Structural)]
pub enum DiffLineType {
    Added,
    Modified,
    Deleted,
}

/// One entry of the file tree.
#[derive(Debug, Clone)]
pub struct FileEntry {
    pub path: String,
    pub status: GitStatus,
    pub is_dir: bool,
    pub depth: usize,
}

/// One parsed line of `git status --porcelain`.
#[derive(Debug, Clone)]
pub struct StatusEntry {
    pub path: String,
    pub status: GitStatus,
}

/// The status that a two-character porcelain code stands for.
pub open spec fn status_of_code(code: Seq<char>) -> GitStatus {
    if code == seq![' ', 'M'] || code == seq!['M', ' '] || code == seq!['M', 'M'] {
        GitStatus::Modified
    } else if code == seq!['A', ' '] {
        GitStatus::Added
    } else if code == seq!['D', ' '] || code == seq![' ', 'D'] {
        GitStatus::Deleted
    } else if code == seq!['?', '?'] {
        GitStatus::Untracked
    } else if code == seq!['R', ' '] {
        GitStatus::Renamed
    } else if code == seq!['C', ' '] {
        GitStatus::Copied
    } else if code == seq!['U', ' '] || code == seq!['U', 'U'] {
        GitStatus::Unmerged
    } else if code == seq!['!', '!'] {
        GitStatus::Ignored
    } else {
        GitStatus::Clean
    }
}

/// The symbol shown for a status.
pub open spec fn symbol_of(s: GitStatus) -> Seq<char> {
    match s {
        GitStatus::Modified => seq!['M'],
        GitStatus::Added => seq!['A'],
        GitStatus::Deleted => seq!['D'],
        GitStatus::Untracked => seq!['?', '?'],
        GitStatus::Renamed => seq!['R'],
        GitStatus::Copied => seq!['C'],
        GitStatus::Unmerged => seq!['U'],
        GitStatus::Ignored => seq!['!'],
        GitStatus::Clean => seq![' '],
    }
}

/// Priority of a status when a folder takes the strongest status of its children.
pub open spec fn priority_of(s: GitStatus) -> i32 {
    match s {
        GitStatus::Modified => 10,
        GitStatus::Added => 9,
        GitStatus::Deleted => 8,
        GitStatus::Renamed => 7,
        GitStatus::Copied => 6,
        GitStatus::Unmerged => 5,
        GitStatus::Untracked => 4,
        GitStatus::Ignored => 1,
        GitStatus::Clean => 0,
    }
}

impl GitStatus {
    /// Parses a porcelain status code.
    pub fn from_code(code: &str) -> (r: GitStatus)
        ensures
            r == status_of_code(code@),
    {
        let cs = chars_of(code);
        if cs.len() != 2 {
            return GitStatus::Clean;
        }
        let a = cs[0];
        let b = cs[1];
        proof {
            assert(cs@ =~= seq![a, b]);
        }
        if (a == ' ' && b == 'M') || (a == 'M' && b == ' ') || (a == 'M' && b == 'M') {
            GitStatus::Modified
        } else if a == 'A' && b == ' ' {
            GitStatus::Added
        } else if (a == 'D' && b == ' ') || (a == ' ' && b == 'D') {
            GitStatus::Deleted
        } else if a == '?' && b == '?' {
            GitStatus::Untracked
        } else if a == 'R' && b == ' ' {
            GitStatus::Renamed
        } else if a == 'C' && b == ' ' {
            GitStatus::Copied
        } else if (a == 'U' && b == ' ') || (a == 'U' && b == 'U') {
            GitStatus::Unmerged
        } else if a == '!' && b == '!' {
            GitStatus::Ignored
        } else {
            GitStatus::Clean
        }
    }

    /// The symbol shown next to a file with this status.
    pub fn symbol(&self) -> (r: &'static str)
        ensures
            r@ == symbol_of(*self),
    {
        match self {
            GitStatus::Modified => {
                proof {
                    reveal_strlit("M");
                }
                "M"
            },
            GitStatus::Added => {
                proof {
                    reveal_strlit("A");
                }
                "A"
            },
            GitStatus::Deleted => {
                proof {
                    reveal_strlit("D");
                }
                "D"
            },
            GitStatus::Untracked => {
                proof {
                    reveal_strlit("??");
                }
                "??"
            },
            GitStatus::Renamed => {
                proof {
                    reveal_strlit("R");
                }
                "R"
            },
            GitStatus::Copied => {
                proof {
                    reveal_strlit("C");
                }
                "C"
            },
            GitStatus::Unmerged => {
                proof {
                    reveal_strlit("U");
                }
                "U"
            },
            GitStatus::Ignored => {
                proof {
                    reveal_strlit("!");
                }
                "!"
            },
            GitStatus::Clean => {
                proof {
                    reveal_strlit(" ");
                }
                " "
            },
        }
    }

    /// Priority used when a folder takes the status of its children.
    pub fn priority(&self) -> (r: i32)
        ensures
            r == priority_of(*self),
    {
        match self {
            GitStatus::Modified => 10,
            GitStatus::Added => 9,
            GitStatus::Deleted => 8,
            GitStatus::Renamed => 7,
            GitStatus::Copied => 6,
            GitStatus::Unmerged => 5,
            GitStatus::Untracked => 4,
            GitStatus::Ignored => 1,
            GitStatus::Clean => 0,
        }
    }
}

impl FileEntry {
    /// A copy of the entry with the same fields.
    pub fn duplicate(&self) -> (r: FileEntry)
        ensures
            r == *self,
    {
        FileEntry { path: self.path.clone(), status: self.status, is_dir: self.is_dir, depth: self.depth }
    }
}

} // verus!
