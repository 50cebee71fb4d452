use git_explorer::git::{FileEntry, GitStatus, StatusEntry};
use git_explorer::manager::GitStatusManager;
use git_explorer::scan::{sort_listing, DirItem, DirTree, SubTree};
use git_explorer::status::{apply_status_from_git_paths, overlay_statuses, propagate_statuses};

fn item(name: &str, is_dir: bool) -> DirItem {
    DirItem { name: name.to_string(), is_dir }
}

fn names(v: &[DirItem]) -> Vec<String> {
    v.iter().map(|i| i.name.clone()).collect()
}

#[test]
fn listing_puts_directories_first_then_sorts_by_name() {
    let sorted = sort_listing(vec![
        item("b.rs", false),
        item("a.rs", false),
        item("zdir", true),
        item("B.md", false),
        item("cdir", true),
        item("é.txt", false),
    ]);
    assert_eq!(names(&sorted), vec!["cdir", "zdir", "B.md", "a.rs", "b.rs", "é.txt"]);
    assert!(sorted[0].is_dir && sorted[1].is_dir && !sorted[2].is_dir);
    assert!(sort_listing(Vec::new()).is_empty());
}

#[test]
fn scan_keeps_children_with_relative_paths() {
    let mut mgr = GitStatusManager::new(".", true, None);
    mgr.expand_dir("src/app");
    let listing = vec![item("main.rs", false), item(".git", true), item("app", true), item("util", true)];
    let kids = mgr.scan_directory("src", "src", 1, listing);
    let paths: Vec<String> = kids.iter().map(|c| c.entry.path.clone()).collect();
    assert_eq!(paths, vec!["src/app", "src/util", "src/main.rs"]);
    assert_eq!(kids[0].name, "app");
    assert!(kids[0].descend);
    assert!(!kids[1].descend);
    assert!(!kids[2].descend);
    for c in &kids {
        assert_eq!(c.entry.status, GitStatus::Clean);
        assert_eq!(c.entry.depth, 1);
    }
    assert!(kids[0].entry.is_dir && !kids[2].entry.is_dir);
}

#[test]
fn scan_at_the_top_descends_into_every_directory() {
    let mgr = GitStatusManager::new(".", false, None);
    let kids = mgr.scan_directory("work", "", 0, vec![item("docs", true), item("x", false), item(".git", true)]);
    assert_eq!(kids.len(), 2);
    assert_eq!(kids[0].entry.path, "docs");
    assert!(kids[0].descend);
    assert_eq!(kids[1].entry.path, "x");
    assert!(!kids[1].descend);
}

#[test]
fn scan_never_enters_the_git_directory() {
    let mgr = GitStatusManager::new(".", true, None);
    assert!(mgr.scan_directory(".git", ".git", 1, vec![item("HEAD", false)]).is_empty());
}

#[test]
fn scan_normalises_separators() {
    let mgr = GitStatusManager::new(".", true, None);
    let kids = mgr.scan_directory("b", "a\\b", 2, vec![item("c", false)]);
    assert_eq!(kids[0].entry.path, "a/b/c");
    let kids = mgr.scan_directory("r", "/", 1, vec![item("c", false)]);
    assert_eq!(kids[0].entry.path, "c");
}

fn entry(path: &str, status: GitStatus, is_dir: bool, depth: usize) -> FileEntry {
    FileEntry { path: path.to_string(), status, is_dir, depth }
}

fn st(path: &str, status: GitStatus) -> StatusEntry {
    StatusEntry { path: path.to_string(), status }
}

fn statuses(es: &[FileEntry]) -> Vec<GitStatus> {
    es.iter().map(|e| e.status).collect()
}

#[test]
fn overlay_takes_the_last_report_for_a_path() {
    let mut es = vec![entry("a", GitStatus::Clean, false, 0), entry("b", GitStatus::Clean, false, 0)];
    overlay_statuses(&mut es, &vec![st("a", GitStatus::Added), st("a", GitStatus::Modified), st("zz", GitStatus::Deleted)]);
    assert_eq!(statuses(&es), vec![GitStatus::Modified, GitStatus::Clean]);
}

#[test]
fn reported_paths_raise_collapsed_parents() {
    let mut es = vec![
        entry("src", GitStatus::Clean, true, 0),
        entry("src/deep", GitStatus::Untracked, true, 1),
        entry("docs", GitStatus::Modified, true, 0),
    ];
    apply_status_from_git_paths(
        &mut es,
        &vec![
            st("src/deep/x/y.rs", GitStatus::Added),
            st("docs/a.md", GitStatus::Deleted),
            st("src/ignored.o", GitStatus::Ignored),
        ],
    );
    assert_eq!(statuses(&es), vec![GitStatus::Added, GitStatus::Added, GitStatus::Modified]);
}

#[test]
fn propagation_goes_from_the_deepest_directories_up() {
    let mut es = vec![
        entry("a", GitStatus::Clean, true, 0),
        entry("a/b", GitStatus::Clean, true, 1),
        entry("a/b/f", GitStatus::Deleted, false, 2),
        entry("a/g", GitStatus::Untracked, false, 1),
        entry("a/i", GitStatus::Ignored, false, 1),
        entry("top", GitStatus::Added, false, 0),
    ];
    propagate_statuses(&mut es);
    assert_eq!(
        statuses(&es),
        vec![
            GitStatus::Deleted,
            GitStatus::Deleted,
            GitStatus::Deleted,
            GitStatus::Untracked,
            GitStatus::Ignored,
            GitStatus::Added,
        ]
    );
}

#[test]
fn ignored_children_do_not_raise_a_directory() {
    let mut es = vec![entry("d", GitStatus::Clean, true, 0), entry("d/x", GitStatus::Ignored, false, 1)];
    propagate_statuses(&mut es);
    assert_eq!(statuses(&es), vec![GitStatus::Clean, GitStatus::Ignored]);
}


fn tree(items: Vec<DirItem>, subdirs: Vec<SubTree>) -> DirTree {
    DirTree { items, subdirs }
}

fn sub(name: &str, t: DirTree) -> SubTree {
    SubTree { name: name.to_string(), tree: t }
}

#[test]
fn walk_lists_in_pre_order_and_descends_only_where_allowed() {
    let mut mgr = GitStatusManager::new(".", true, None);
    mgr.expand_dir("src/app");
    let app_dir = tree(vec![item("core.rs", false)], vec![]);
    let util_dir = tree(vec![item("never.rs", false)], vec![]);
    let src = tree(
        vec![item("main.rs", false), item("util", true), item("app", true)],
        vec![sub("app", app_dir), sub("util", util_dir)],
    );
    let git = tree(vec![item("HEAD", false)], vec![]);
    let root = tree(
        vec![item("README.md", false), item(".git", true), item("src", true), item("docs", true)],
        vec![sub("src", src), sub(".git", git)],
    );
    let entries = mgr.get_all_files("work", &root);
    let got: Vec<(String, bool, usize)> = entries.iter().map(|e| (e.path.clone(), e.is_dir, e.depth)).collect();
    let want: Vec<(String, bool, usize)> = vec![
        ("docs".to_string(), true, 0),
        ("src".to_string(), true, 0),
        ("src/app".to_string(), true, 1),
        ("src/app/core.rs".to_string(), false, 2),
        ("src/util".to_string(), true, 1),
        ("src/main.rs".to_string(), false, 1),
        ("README.md".to_string(), false, 0),
    ];
    assert_eq!(got, want);
    assert!(entries.iter().all(|e| e.status == GitStatus::Clean));
}

#[test]
fn walk_appends_and_skips_inside_git() {
    let mgr = GitStatusManager::new(".", true, None);
    let mut entries = vec![FileEntry { path: "x".to_string(), status: GitStatus::Added, is_dir: false, depth: 0 }];
    mgr.collect_all_files(&tree(vec![item("a", false)], vec![]), ".git", ".git", 1, &mut entries);
    assert_eq!(entries.len(), 1);
    mgr.collect_all_files(&tree(vec![item("a", false)], vec![]), "d", "d", 1, &mut entries);
    assert_eq!(entries.len(), 2);
    assert_eq!(entries[0].status, GitStatus::Added);
    assert_eq!(entries[1].path, "d/a");
}
