use git_explorer::git::{FileEntry, GitStatus};
use git_explorer::manager::{repo_prefix_from_output, GitOutput, GitStatusManager};

#[test]
fn test_git_status_from_code() {
    assert_eq!(GitStatus::from_code(" M"), GitStatus::Modified);
    assert_eq!(GitStatus::from_code("A "), GitStatus::Added);
    assert_eq!(GitStatus::from_code("??"), GitStatus::Untracked);
    assert_eq!(GitStatus::from_code("D "), GitStatus::Deleted);
}

#[test]
fn test_parse_status_line_rename() {
    let parsed = GitStatusManager::parse_status_line("R  old/file.txt -> new/file.txt").unwrap();
    assert_eq!(parsed.path, "new/file.txt");
    assert_eq!(parsed.status, GitStatus::Renamed);
}

#[test]
fn test_normalize_status_path_with_prefix() {
    let mgr = GitStatusManager::new("", true, Some("src/"));

    assert_eq!(
        mgr.normalize_status_path("src/main.rs"),
        Some("main.rs".to_string())
    );
    assert_eq!(mgr.normalize_status_path("other/main.rs"), None);
}

#[test]
fn test_git_status_symbol() {
    assert_eq!(GitStatus::Modified.symbol(), "M");
    assert_eq!(GitStatus::Untracked.symbol(), "??");
}

#[test]
fn from_code_covers_every_code() {
    assert_eq!(GitStatus::from_code("M "), GitStatus::Modified);
    assert_eq!(GitStatus::from_code("MM"), GitStatus::Modified);
    assert_eq!(GitStatus::from_code(" D"), GitStatus::Deleted);
    assert_eq!(GitStatus::from_code("R "), GitStatus::Renamed);
    assert_eq!(GitStatus::from_code("C "), GitStatus::Copied);
    assert_eq!(GitStatus::from_code("U "), GitStatus::Unmerged);
    assert_eq!(GitStatus::from_code("UU"), GitStatus::Unmerged);
    assert_eq!(GitStatus::from_code("!!"), GitStatus::Ignored);
    assert_eq!(GitStatus::from_code("XY"), GitStatus::Clean);
    assert_eq!(GitStatus::from_code(""), GitStatus::Clean);
    assert_eq!(GitStatus::from_code("AM"), GitStatus::Clean);
}

#[test]
fn symbols_of_every_status() {
    assert_eq!(GitStatus::Added.symbol(), "A");
    assert_eq!(GitStatus::Deleted.symbol(), "D");
    assert_eq!(GitStatus::Renamed.symbol(), "R");
    assert_eq!(GitStatus::Copied.symbol(), "C");
    assert_eq!(GitStatus::Unmerged.symbol(), "U");
    assert_eq!(GitStatus::Ignored.symbol(), "!");
    assert_eq!(GitStatus::Clean.symbol(), " ");
}

#[test]
fn priorities_rank_statuses() {
    assert_eq!(GitStatus::Modified.priority(), 10);
    assert_eq!(GitStatus::Added.priority(), 9);
    assert_eq!(GitStatus::Deleted.priority(), 8);
    assert_eq!(GitStatus::Renamed.priority(), 7);
    assert_eq!(GitStatus::Copied.priority(), 6);
    assert_eq!(GitStatus::Unmerged.priority(), 5);
    assert_eq!(GitStatus::Untracked.priority(), 4);
    assert_eq!(GitStatus::Ignored.priority(), 1);
    assert_eq!(GitStatus::Clean.priority(), 0);
}

#[test]
fn parse_status_line_plain_and_edge_cases() {
    let p = GitStatusManager::parse_status_line(" M src/app.rs").unwrap();
    assert_eq!(p.path, "src/app.rs");
    assert_eq!(p.status, GitStatus::Modified);

    let p = GitStatusManager::parse_status_line("?? \"with space.txt\"").unwrap();
    assert_eq!(p.path, "with space.txt");
    assert_eq!(p.status, GitStatus::Untracked);

    let p = GitStatusManager::parse_status_line("!! target/").unwrap();
    assert_eq!(p.path, "target");
    assert_eq!(p.status, GitStatus::Ignored);

    let p = GitStatusManager::parse_status_line("R  a -> b -> c").unwrap();
    assert_eq!(p.path, "c");

    assert!(GitStatusManager::parse_status_line("M a").is_none());
    assert!(GitStatusManager::parse_status_line("").is_none());
    assert!(GitStatusManager::parse_status_line("??  /").is_none());
}

#[test]
fn normalize_without_prefix() {
    let mgr = GitStatusManager::new("/repo", true, Some("\n"));
    assert_eq!(mgr.normalize_status_path("./a/b.rs"), Some("a/b.rs".to_string()));
    assert_eq!(mgr.normalize_status_path("a\\b.rs"), Some("a/b.rs".to_string()));
    assert_eq!(mgr.normalize_status_path("././x"), Some("x".to_string()));
}

#[test]
fn normalize_with_prefix_rejects_the_directory_itself() {
    let mgr = GitStatusManager::new("/repo/src", true, Some("src/\n"));
    assert_eq!(mgr.normalize_status_path("src"), None);
    assert_eq!(mgr.normalize_status_path("src\\lib.rs"), Some("lib.rs".to_string()));
    assert_eq!(mgr.normalize_status_path("srcx/lib.rs"), None);
}

#[test]
fn repo_prefix_output_forms() {
    assert_eq!(repo_prefix_from_output("src/sub/\n"), "src/sub/");
    assert_eq!(repo_prefix_from_output("  src//\n"), "src/");
    assert_eq!(repo_prefix_from_output("a\\b"), "a/b/");
    assert_eq!(repo_prefix_from_output("\n"), "");
}

#[test]
fn manager_outside_a_repository_has_no_prefix() {
    let mgr = GitStatusManager::new("/tmp/x", false, Some("src/"));
    assert!(!mgr.is_git_repo());
    assert_eq!(mgr.normalize_status_path("src/a"), Some("src/a".to_string()));
    let failed = GitStatusManager::new("/tmp/x", true, None);
    assert!(failed.is_git_repo());
    assert_eq!(failed.normalize_status_path("src/a"), Some("src/a".to_string()));
}

#[test]
fn expand_and_collapse_directories() {
    let mut mgr = GitStatusManager::new(".", true, None);
    assert!(!mgr.is_expanded("src"));
    mgr.expand_dir("src");
    mgr.expand_dir("src");
    assert!(mgr.is_expanded("src"));
    assert!(!mgr.is_expanded("sr"));
    mgr.collapse_dir("src");
    assert!(!mgr.is_expanded("src"));
    mgr.collapse_dir("never");
    assert!(!mgr.is_expanded("never"));
}

fn entry(path: &str, is_dir: bool, depth: usize) -> FileEntry {
    FileEntry { path: path.to_string(), status: GitStatus::Clean, is_dir, depth }
}

fn scanned() -> Vec<FileEntry> {
    vec![
        entry("src", true, 0),
        entry("src/app", true, 1),
        entry("src/app/core.rs", false, 2),
        entry("src/main.rs", false, 1),
        entry("README.md", false, 0),
    ]
}

#[test]
fn get_status_outside_a_repository_marks_everything_untracked() {
    let mgr = GitStatusManager::new(".", false, None);
    let r = mgr.get_status(scanned(), Err("unused".to_string())).unwrap();
    assert_eq!(r.len(), 5);
    for e in &r {
        assert_eq!(e.status, GitStatus::Untracked);
    }
    assert_eq!(r[2].path, "src/app/core.rs");
}

#[test]
fn get_status_applies_git_output_and_propagates() {
    let mgr = GitStatusManager::new(".", true, Some("\n"));
    let out = GitOutput {
        success: true,
        stdout: " M src/app/core.rs\n?? README.md\nA  src/new/deep/file.rs\n!! src/main.rs\n".to_string(),
        stderr: String::new(),
    };
    let r = mgr.get_status(scanned(), Ok(out)).unwrap();
    let st: Vec<GitStatus> = r.iter().map(|e| e.status).collect();
    assert_eq!(
        st,
        vec![
            GitStatus::Modified,
            GitStatus::Modified,
            GitStatus::Modified,
            GitStatus::Ignored,
            GitStatus::Untracked,
        ]
    );
}

#[test]
fn get_status_reports_failures() {
    let mgr = GitStatusManager::new(".", true, None);
    let out = GitOutput { success: false, stdout: String::new(), stderr: "fatal: no".to_string() };
    assert_eq!(mgr.get_status(scanned(), Ok(out)).unwrap_err(), "Git 命令失败：fatal: no");
    assert_eq!(mgr.get_status(scanned(), Err("spawn failed".to_string())).unwrap_err(), "spawn failed");
}

#[test]
fn file_diff_lines_only_inside_a_repository() {
    let repo = GitStatusManager::new(".", true, None);
    let outside = GitStatusManager::new(".", false, None);
    let diff = "@@ -3,0 +4,2 @@\n+a\n+b\n".to_string();
    assert!(outside.get_file_diff_lines(Some(diff.clone())).is_empty());
    assert!(repo.get_file_diff_lines(None).is_empty());
    let m = repo.get_file_diff_lines(Some(diff));
    assert_eq!(m.len(), 2);
    assert!(m.contains_key(&4) && m.contains_key(&5));
}
