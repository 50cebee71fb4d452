use vstd::prelude::*;
use std::collections::HashMap;
use crate::strset::{set_contains, set_insert, set_remove, string_set};
use crate::diff::{diff_line_marks, diff_marks, hunks_fit};
use crate::git::{DiffLineType, status_of_code, FileEntry, GitStatus, StatusEntry};
use crate::status::{
    apply_git_paths_spec, apply_status_from_git_paths, overlay_spec, overlay_statuses,
    propagate_spec, propagate_statuses, status_pairs, with_status,
};
use crate::text::{
    byte_len, chars_eq, chars_of, has_prefix, has_prefix_exec, last_occurrence,
    last_occurrence_exec, last_occurrence_from, lines_of, lines_spec, string_views, lemma_byte_len_mono, lemma_byte_len_step,
    occurs_at, replace_char, replace_char_exec, string_of, sub_vec, trim_char,
    trim_char_exec, trim_end_char, trim_end_char_exec, trim_start_seq, trim_start_seq_exec,
    trim_ws, trim_ws_chars, utf8_width_exec,
};

verus! {

/// Tracks where the working directory sits in a git repository and which
/// directories the tree has opened.
pub struct GitStatusManager {
    working_dir: String,
    is_git_repo: bool,
    expanded_dirs: Vec<String>,
    repo_prefix: String,
}

/// The arrow that porcelain output puts between the old and the new path of a rename.
pub open spec fn rename_arrow() -> Seq<char> {
    seq![' ', '-', '>', ' ']
}

/// The character index at which byte offset `b` falls, scanning from character `k`;
/// `None` when `b` is not on a character boundary.
pub open spec fn char_pos_of_byte(s: Seq<char>, b: nat, k: nat) -> Option<nat>
    decreases s.len() - k,
{
    if k > s.len() {
        None
    } else if byte_len(s.take(k as int)) == b {
        Some(k)
    } else if byte_len(s.take(k as int)) > b || k == s.len() {
        None
    } else {
        char_pos_of_byte(s, b, k + 1)
    }
}

/// A porcelain line that can be cut at byte offsets 2 and 3 (any line shorter
/// than four bytes is rejected before any cut is made).
pub open spec fn status_line_sliceable(line: Seq<char>) -> bool {
    byte_len(line) < 4 || (char_pos_of_byte(line, 2, 0) is Some && char_pos_of_byte(line, 3, 0) is Some)
}

/// The path and status that one line of `git status --porcelain` describes: the
/// code is the first two bytes, the path what follows the third byte, trimmed; for
/// a rename the part after the last ` -> `; quotes and trailing slashes dropped.
pub open spec fn status_line_spec(line: Seq<char>) -> Option<(Seq<char>, GitStatus)> {
    if byte_len(line) < 4 {
        None
    } else {
        let code = line.take(char_pos_of_byte(line, 2, 0).unwrap() as int);
        let rest = trim_ws(line.skip(char_pos_of_byte(line, 3, 0).unwrap() as int));
        let p1 = match last_occurrence(rest, rename_arrow()) {
            Some(i) => rest.skip(i + 4),
            None => rest,
        };
        let p2 = trim_end_char(trim_char(p1, '"'), '/');
        if p2.len() == 0 {
            None
        } else {
            Some((p2, status_of_code(code)))
        }
    }
}

/// A path from git output made relative to the working directory, given the
/// working directory's prefix inside the repository.
pub open spec fn normalize_spec(path: Seq<char>, prefix: Seq<char>) -> Option<Seq<char>> {
    let n = replace_char(path, '\\', '/');
    if prefix.len() == 0 {
        Some(trim_start_seq(n, seq!['.', '/']))
    } else if n == trim_end_char(prefix, '/') {
        None
    } else if has_prefix(n, prefix) {
        Some(trim_start_seq(n.skip(prefix.len() as int), seq!['.', '/']))
    } else {
        None
    }
}

/// The prefix that `git rev-parse --show-prefix` output stands for: trimmed,
/// with `/` separators and exactly one trailing `/` (empty stays empty).
pub open spec fn repo_prefix_spec(out: Seq<char>) -> Seq<char> {
    let p = replace_char(trim_ws(out), '\\', '/');
    if p.len() == 0 {
        p
    } else {
        trim_end_char(p, '/') + seq!['/']
    }
}

/// Character index of byte offset `b` (which must fall on a character boundary).
fn char_index_of_byte(cs: &[char], b: usize) -> (k: usize)
    requires
        b <= 3,
        char_pos_of_byte(cs@, b as nat, 0) is Some,
    ensures
        char_pos_of_byte(cs@, b as nat, 0) == Some(k as nat),
        k <= cs@.len(),
{
    let mut k: usize = 0;
    let mut acc: usize = 0;
    while acc < b
        invariant
            k <= cs@.len(),
            b <= 3,
            acc == byte_len(cs@.take(k as int)),
            char_pos_of_byte(cs@, b as nat, 0) == char_pos_of_byte(cs@, b as nat, k as nat),
            char_pos_of_byte(cs@, b as nat, k as nat) is Some,
        decreases b - acc,
    {
        proof {
            lemma_byte_len_step(cs@, k as int);
        }
        acc = acc + utf8_width_exec(cs[k]);
        k += 1;
    }
    k
}

/// What running `git status --porcelain` produced.
pub struct GitOutput {
    pub success: bool,
    pub stdout: String,
    pub stderr: String,
}

/// The (path, status) pairs that the porcelain lines report, in order, keeping
/// the lines that parse and whose path lies inside the working directory.
pub open spec fn reported_statuses(lines: Seq<Seq<char>>, prefix: Seq<char>) -> Seq<(Seq<char>, GitStatus)>
    decreases lines.len(),
{
    if lines.len() == 0 {
        seq![]
    } else {
        let prev = reported_statuses(lines.drop_last(), prefix);
        match status_line_spec(lines.last()) {
            Some((p, s)) => match normalize_spec(p, prefix) {
                Some(q) => prev.push((q, s)),
                None => prev,
            },
            None => prev,
        }
    }
}

/// Every line of the output can be cut where the porcelain format says.
pub open spec fn status_lines_sliceable(out: Seq<char>) -> bool {
    forall|i: int| 0 <= i < lines_spec(out).len() ==> status_line_sliceable(#[trigger] lines_spec(out)[i])
}

/// Every entry marked untracked.
pub open spec fn all_untracked(es: Seq<FileEntry>) -> Seq<FileEntry> {
    Seq::new(es.len(), |i: int| with_status(es[i], GitStatus::Untracked))
}

/// What `GitStatusManager::expand_dir` does: `p` joins the expanded
/// directories; nothing else changes.
pub open spec fn expanded_step(a: GitStatusManager, b: GitStatusManager, p: Seq<char>) -> bool {
    &&& b.expanded() == a.expanded().insert(p)
    &&& b.working_dir_view() == a.working_dir_view()
    &&& b.is_repo() == a.is_repo()
    &&& b.prefix() == a.prefix()
}

/// What `GitStatusManager::collapse_dir` does: `p` leaves the expanded
/// directories; nothing else changes.
pub open spec fn collapsed_step(a: GitStatusManager, b: GitStatusManager, p: Seq<char>) -> bool {
    &&& b.expanded() == a.expanded().remove(p)
    &&& b.working_dir_view() == a.working_dir_view()
    &&& b.is_repo() == a.is_repo()
    &&& b.prefix() == a.prefix()
}

/// The message reported when `git status` fails.
pub open spec fn git_failure_message(stderr: Seq<char>) -> Seq<char> {
    "Git 命令失败："@ + stderr
}

impl GitStatusManager {
    pub closed spec fn working_dir_view(&self) -> Seq<char> {
        self.working_dir@
    }

    pub closed spec fn is_repo(&self) -> bool {
        self.is_git_repo
    }

    pub closed spec fn prefix(&self) -> Seq<char> {
        self.repo_prefix@
    }

    /// Directories whose contents the scan descends into.
    pub closed spec fn expanded(&self) -> Set<Seq<char>> {
        string_set(self.expanded_dirs@)
    }

    /// A manager for `working_dir`; `is_git_repo` and `prefix_output` are what
    /// `git rev-parse --is-inside-work-tree` and `git rev-parse --show-prefix`
    /// reported (`None` when the latter failed).
    pub fn new(working_dir: &str, is_git_repo: bool, prefix_output: Option<&str>) -> (m: Self)
        ensures
            m.working_dir_view() == working_dir@,
            m.is_repo() == is_git_repo,
            m.prefix() == (if is_git_repo && prefix_output is Some {
                repo_prefix_spec(prefix_output.unwrap()@)
            } else {
                Seq::<char>::empty()
            }),
            m.expanded() == Set::<Seq<char>>::empty(),
    {
        let repo_prefix = if is_git_repo {
            match prefix_output {
                Some(o) => repo_prefix_from_output(o),
                None => String::new(),
            }
        } else {
            String::new()
        };
        let m = GitStatusManager {
            working_dir: working_dir.to_owned(),
            is_git_repo,
            expanded_dirs: Vec::new(),
            repo_prefix,
        };
        proof {
            assert(string_set(m.expanded_dirs@) =~= Set::<Seq<char>>::empty());
        }
        m
    }

    /// Marks a directory as opened.
    pub fn expand_dir(&mut self, path: &str)
        ensures
            expanded_step(*old(self), *final(self), path@),
    {
        set_insert(&mut self.expanded_dirs, path);
    }

    /// Marks a directory as closed.
    pub fn collapse_dir(&mut self, path: &str)
        ensures
            collapsed_step(*old(self), *final(self), path@),
    {
        set_remove(&mut self.expanded_dirs, path);
    }

    /// Whether the directory `path` was expanded.
    pub fn is_expanded(&self, path: &str) -> (r: bool)
        ensures
            r == self.expanded().contains(path@),
    {
        set_contains(&self.expanded_dirs, path)
    }

    /// Whether the working directory lies inside a git work tree.
    pub fn is_git_repo(&self) -> (r: bool)
        ensures
            r == self.is_repo(),
    {
        self.is_git_repo
    }

    /// Statuses of the scanned entries. `scanned` is the tree as read from disk
    /// (all `Clean`); `git` is what `git status --porcelain -u --ignored=matching
    /// --renames -- .` produced, or the message of the error that kept it from
    /// running. Outside a repository everything is untracked and `git` is not used.
    pub fn get_status(&self, scanned: Vec<FileEntry>, git: Result<GitOutput, String>) -> (r: Result<
        Vec<FileEntry>,
        String,
    >)
        requires
            self.is_repo() ==> (git matches Ok(o) ==> (o.success ==> status_lines_sliceable(
                o.stdout@,
            ))),
        ensures
            !self.is_repo() ==> (r matches Ok(v) && v@ == propagate_spec(all_untracked(scanned@))),
            self.is_repo() ==> match git {
                Err(e) => r matches Err(m) && m@ == e@,
                Ok(o) => if !o.success {
                    r matches Err(m) && m@ == git_failure_message(o.stderr@)
                } else {
                    r matches Ok(v) && v@ == propagate_spec(
                        apply_git_paths_spec(
                            overlay_spec(
                                scanned@,
                                reported_statuses(lines_spec(o.stdout@), self.prefix()),
                            ),
                            reported_statuses(lines_spec(o.stdout@), self.prefix()),
                        ),
                    )
                },
            },
    {
        let mut entries = scanned;
        if !self.is_git_repo {
            let ghost es0 = entries@;
            let mut i: usize = 0;
            while i < entries.len()
                invariant
                    i <= entries@.len() == es0.len(),
                    forall|j: int| 0 <= j < i ==> entries@[j] == with_status(es0[j], GitStatus::Untracked),
                    forall|j: int| i <= j < es0.len() ==> entries@[j] == es0[j],
                decreases es0.len() - i,
            {
                let e = entries[i].duplicate();
                entries.set(i, FileEntry { path: e.path, status: GitStatus::Untracked, is_dir: e.is_dir, depth: e.depth });
                i += 1;
            }
            proof {
                assert(entries@ =~= all_untracked(es0));
            }
            propagate_statuses(&mut entries);
            return Ok(entries);
        }
        let out = match git {
            Err(e) => {
                return Err(e);
            },
            Ok(o) => o,
        };
        if !out.success {
            let mut msg = "Git 命令失败：".to_owned();
            msg.append(out.stderr.as_str());
            return Err(msg);
        }
        let lines = lines_of(out.stdout.as_str());
        let ghost ls = lines_spec(out.stdout@);
        let mut sts: Vec<StatusEntry> = Vec::new();
        let mut i: usize = 0;
        while i < lines.len()
            invariant
                i <= lines@.len(),
                string_views(lines@) == ls,
                ls == lines_spec(out.stdout@),
                status_lines_sliceable(out.stdout@),
                status_pairs(sts@) == reported_statuses(ls.take(i as int), self.prefix()),
            decreases lines@.len() - i,
        {
            proof {
                assert(ls[i as int] == lines@[i as int]@);
                assert(ls.take(i + 1).drop_last() =~= ls.take(i as int));
                assert(ls.take(i + 1).last() == ls[i as int]);
            }
            let ghost before = status_pairs(sts@);
            match Self::parse_status_line(lines[i].as_str()) {
                Some(parsed) => {
                    match self.normalize_status_path(parsed.path.as_str()) {
                        Some(path) => {
                            sts.push(StatusEntry { path, status: parsed.status });
                            proof {
                                assert(status_pairs(sts@) =~= before.push(
                                    (sts@.last().path@, parsed.status),
                                ));
                            }
                        },
                        None => {},
                    }
                },
                None => {},
            }
            i += 1;
        }
        proof {
            assert(ls.take(i as int) =~= ls);
        }
        overlay_statuses(&mut entries, &sts);
        apply_status_from_git_paths(&mut entries, &sts);
        propagate_statuses(&mut entries);
        Ok(entries)
    }

    /// Gutter marks for a file from the output of `git diff --unified=0 -- <file>`
    /// (`None` when the command could not run); nothing outside a repository.
    pub fn get_file_diff_lines(&self, diff_output: Option<String>) -> (r: HashMap<usize, DiffLineType>)
        requires
            self.is_repo() ==> (diff_output matches Some(o) ==> hunks_fit(o@)),
        ensures
            r@ == (if self.is_repo() && diff_output is Some {
                diff_marks(lines_spec(diff_output.unwrap()@))
            } else {
                Map::<usize, DiffLineType>::empty()
            }),
    {
        if !self.is_git_repo {
            return HashMap::new();
        }
        match diff_output {
            Some(o) => diff_line_marks(o.as_str()),
            None => HashMap::new(),
        }
    }

    /// Parses one line of `git status --porcelain`.
    pub fn parse_status_line(line: &str) -> (r: Option<StatusEntry>)
        requires
            status_line_sliceable(line@),
        ensures
            match r {
                Some(e) => status_line_spec(line@) == Some((e.path@, e.status)),
                None => status_line_spec(line@) is None,
            },
    {
        let cs = chars_of(line);
        // Is the line at least four bytes long?
        let mut k: usize = 0;
        let mut acc: usize = 0;
        while k < cs.len() && acc < 4
            invariant
                k <= cs@.len(),
                acc == byte_len(cs@.take(k as int)),
                acc < 8,
            decreases cs@.len() - k,
        {
            proof {
                lemma_byte_len_step(cs@, k as int);
            }
            acc = acc + utf8_width_exec(cs[k]);
            k += 1;
        }
        if acc < 4 {
            proof {
                assert(cs@.take(k as int) =~= cs@);
            }
            return None;
        }
        proof {
            lemma_byte_len_mono(cs@, k as int);
        }
        let k2 = char_index_of_byte(cs.as_slice(), 2);
        let k3 = char_index_of_byte(cs.as_slice(), 3);
        let code = string_of(cs.as_slice(), 0, k2);
        let tail = sub_vec(cs.as_slice(), k3, cs.len());
        let rest = trim_ws_chars(tail.as_slice());
        proof {
            assert(cs@.subrange(0, k2 as int) =~= cs@.take(k2 as int));
            assert(tail@ =~= cs@.skip(k3 as int));
        }
        let arrow: Vec<char> = vec![' ', '-', '>', ' '];
        proof {
            assert(arrow@ =~= rename_arrow());
        }
        let rest_len = rest.len();
        let p1 = match last_occurrence_exec(rest.as_slice(), arrow.as_slice()) {
            Some(i) => {
                proof {
                    assert(occurs_at(rest@, arrow@, i as int)) by {
                        lemma_last_occurrence_found(rest@, arrow@, rest@.len() - arrow@.len());
                    }
                    assert(arrow@.len() == 4);
                    assert(i + 4 <= rest@.len());
                }
                let v = sub_vec(rest.as_slice(), i + 4, rest_len);
                proof {
                    assert(v@ =~= rest@.skip(i + 4));
                }
                v
            },
            None => rest,
        };
        let p2a = trim_char_exec(p1.as_slice(), '"');
        let p2 = trim_end_char_exec(p2a.as_slice(), '/');
        if p2.len() == 0 {
            return None;
        }
        let path = string_of(p2.as_slice(), 0, p2.len());
        proof {
            assert(p2@.subrange(0, p2@.len() as int) =~= p2@);
        }
        let status = GitStatus::from_code(code.as_str());
        Some(StatusEntry { path, status })
    }

    /// Makes a path from git output relative to the working directory; `None`
    /// when it lies outside it (or is the working directory itself).
    pub fn normalize_status_path(&self, path: &str) -> (r: Option<String>)
        ensures
            match r {
                Some(p) => normalize_spec(path@, self.prefix()) == Some(p@),
                None => normalize_spec(path@, self.prefix()) is None,
            },
    {
        let pcs = chars_of(path);
        let n = replace_char_exec(pcs.as_slice(), '\\', '/');
        let dot_slash: Vec<char> = vec!['.', '/'];
        proof {
            assert(dot_slash@ =~= seq!['.', '/']);
        }
        let prefix = chars_of(self.repo_prefix.as_str());
        if prefix.len() == 0 {
            let t = trim_start_seq_exec(n.as_slice(), dot_slash.as_slice());
            return Some(string_of(t.as_slice(), 0, t.len()));
        }
        let bare = trim_end_char_exec(prefix.as_slice(), '/');
        if chars_eq(n.as_slice(), bare.as_slice()) {
            return None;
        }
        if has_prefix_exec(n.as_slice(), prefix.as_slice()) {
            let after = sub_vec(n.as_slice(), prefix.len(), n.len());
            proof {
                assert(after@ =~= n@.skip(prefix@.len() as int));
            }
            let t = trim_start_seq_exec(after.as_slice(), dot_slash.as_slice());
            Some(string_of(t.as_slice(), 0, t.len()))
        } else {
            None
        }
    }
}

pub proof fn lemma_last_occurrence_found(s: Seq<char>, pat: Seq<char>, i: int)
    ensures
        last_occurrence_from(s, pat, i) matches Some(k) ==> occurs_at(s, pat, k) && k <= i,
    decreases i + 1,
{
    if i >= 0 && !occurs_at(s, pat, i) {
        lemma_last_occurrence_found(s, pat, i - 1);
    }
}

/// The repository prefix that `git rev-parse --show-prefix` printed.
pub fn repo_prefix_from_output(out: &str) -> (r: String)
    ensures
        r@ == repo_prefix_spec(out@),
{
    let cs = chars_of(out);
    let t = trim_ws_chars(cs.as_slice());
    let p = replace_char_exec(t.as_slice(), '\\', '/');
    if p.len() == 0 {
        return string_of(p.as_slice(), 0, 0);
    }
    let mut q = trim_end_char_exec(p.as_slice(), '/');
    q.push('/');
    string_of(q.as_slice(), 0, q.len())
}

} // verus!
