use std::sync::mpsc;

use git_explorer::app::Rect;
use git_explorer::diff::{diff_fits, diff_line_marks, get_git_diff_lines};
use git_explorer::git::DiffLineType;
use git_explorer::layout::centered_rect;
use git_explorer::text::{chars_of, lines_of, parse_i32, parse_usize, split_chars};
use git_explorer::watcher::FileWatcher;

const SAMPLE: &str = "diff --git a/f b/f\n--- a/f\n+++ b/f\n@@ -1,2 +1,3 @@\n-a\n+b\n@@ -10 +11 @@\n@@ -20,3 +19,0 @@\n@@ -5,0 +7,2 @@ fn x\n";

#[test]
fn diff_marks_each_hunk_kind() {
    let m = diff_line_marks(SAMPLE);
    assert_eq!(m.get(&1), Some(&DiffLineType::Modified));
    assert_eq!(m.get(&2), Some(&DiffLineType::Modified));
    assert_eq!(m.get(&3), Some(&DiffLineType::Modified));
    assert_eq!(m.get(&4), None);
    assert_eq!(m.get(&11), Some(&DiffLineType::Modified));
    assert_eq!(m.get(&19), Some(&DiffLineType::Deleted));
    assert_eq!(m.get(&7), Some(&DiffLineType::Added));
    assert_eq!(m.get(&8), Some(&DiffLineType::Added));
    assert_eq!(m.len(), 7);
}

#[test]
fn diff_fits_checks_the_marked_range() {
    assert!(diff_fits(SAMPLE));
    assert!(diff_fits(""));
    let last = format!("@@ -1 +{},1 @@\n", usize::MAX);
    assert!(diff_fits(&last));
    let over = format!("@@ -1 +{},2 @@\n", usize::MAX);
    assert!(!diff_fits(&over));
}

#[test]
fn diff_deletion_at_line_zero_is_not_marked() {
    let m = diff_line_marks("@@ -1,2 +0,0 @@\n");
    assert!(m.is_empty());
}

#[test]
fn later_hunks_overwrite_earlier_marks() {
    let m = diff_line_marks("@@ -1,0 +1,2 @@\n@@ -2 +2 @@\n");
    assert_eq!(m.get(&1), Some(&DiffLineType::Added));
    assert_eq!(m.get(&2), Some(&DiffLineType::Modified));
}

#[test]
fn hunk_start_lines_where_they_parse() {
    assert_eq!(get_git_diff_lines(SAMPLE), vec![1, 11, 19, 7]);
    assert_eq!(get_git_diff_lines("@@ -1,2 +3,4 @@\n@@ -5 +6 @@\n"), vec![3, 6]);
    assert_eq!(get_git_diff_lines("@@ -5 +x @@\n"), Vec::<i32>::new());
    assert_eq!(get_git_diff_lines("no hunks here\n"), Vec::<i32>::new());
    assert_eq!(get_git_diff_lines("@@ -1 +-3,2 @@"), vec![-3]);
}

#[test]
fn centred_rectangle_of_a_screen() {
    let area = Rect { x: 0, y: 0, width: 100, height: 50 };
    assert_eq!(centered_rect(60, 40, area), Rect { x: 20, y: 15, width: 60, height: 20 });
    let area = Rect { x: 10, y: 5, width: 200, height: 100 };
    assert_eq!(centered_rect(50, 50, area), Rect { x: 60, y: 30, width: 100, height: 50 });
    assert_eq!(centered_rect(100, 100, area), area);
}

#[test]
fn lines_like_str_lines() {
    assert_eq!(lines_of("a\r\nb\n\nc"), vec!["a", "b", "", "c"]);
    assert_eq!(lines_of("x\n"), vec!["x"]);
    assert!(lines_of("").is_empty());
    assert_eq!(lines_of("\n"), vec![""]);
}

#[test]
fn number_parsing() {
    assert_eq!(parse_usize(&chars_of("42")), Some(42));
    assert_eq!(parse_usize(&chars_of("+7")), Some(7));
    assert_eq!(parse_usize(&chars_of("-1")), None);
    assert_eq!(parse_usize(&chars_of("")), None);
    assert_eq!(parse_usize(&chars_of("4 2")), None);
    assert_eq!(parse_i32(&chars_of("-2147483648")), Some(i32::MIN));
    assert_eq!(parse_i32(&chars_of("2147483648")), None);
    assert_eq!(parse_i32(&chars_of("+0")), Some(0));
}

#[test]
fn splitting_like_str_split() {
    let parts = split_chars(&chars_of("a,,b,"), ',');
    let parts: Vec<String> = parts.iter().map(|p| p.iter().collect()).collect();
    assert_eq!(parts, vec!["a", "", "b", ""]);
}

#[test]
fn watcher_posts_on_its_channel() {
    let (tx, rx) = mpsc::channel();
    let w = FileWatcher::new(tx);
    w.sender().send(()).unwrap();
    assert!(rx.try_recv().is_ok());
}
