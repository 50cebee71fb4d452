use std::collections::HashMap;

use git_explorer::app::{App, FocusArea, Rect};
use git_explorer::git::{DiffLineType, FileEntry, GitStatus};
use git_explorer::manager::GitStatusManager;

fn app_with(content: &str) -> App {
    let files = vec![FileEntry { path: "a.txt".to_string(), status: GitStatus::Clean, is_dir: false, depth: 0 }];
    let mut app = App::new(".", GitStatusManager::new(".", false, None), Ok(files));
    let mut marks = HashMap::new();
    marks.insert(1usize, DiffLineType::Modified);
    app.load_editor("a.txt".to_string(), content, marks);
    app
}

#[test]
fn load_editor_splits_lines_and_resets_state() {
    let app = app_with("ab\r\ncd\n\nlast");
    assert_eq!(app.editor_content, vec!["ab", "cd", "", "last"]);
    assert_eq!(app.editor_original_content, app.editor_content);
    assert_eq!(app.editor_cursor, (0, 0));
    assert_eq!(app.editor_path, "a.txt");
    assert!(!app.editor_modified);
    assert!(app.editor_undo_stack.is_empty());
    assert_eq!(app.editor_diff_lines.get(&1), Some(&DiffLineType::Modified));
    let empty = app_with("");
    assert!(empty.editor_content.is_empty());
}

#[test]
fn insert_then_backspace_restores_the_line() {
    let mut app = app_with("ab\ncd");
    app.editor_right();
    app.editor_insert('x');
    assert_eq!(app.editor_content, vec!["axb", "cd"]);
    assert_eq!(app.editor_cursor, (0, 2));
    assert!(app.editor_modified);
    app.editor_backspace();
    assert_eq!(app.editor_content, vec!["ab", "cd"]);
    assert_eq!(app.editor_cursor, (0, 1));
    assert_eq!(app.editor_undo_stack.len(), 2);
}

#[test]
fn newline_then_backspace_joins_back() {
    let mut app = app_with("héllo\nworld");
    app.editor_right();
    app.editor_right();
    app.editor_insert_newline();
    assert_eq!(app.editor_content, vec!["hé", "llo", "world"]);
    assert_eq!(app.editor_cursor, (1, 0));
    app.editor_backspace();
    assert_eq!(app.editor_content, vec!["héllo", "world"]);
    // the cursor stands where the line above ended, counted in characters
    assert_eq!(app.editor_cursor, (0, 2));
}

#[test]
fn backspace_at_the_very_start_only_saves_undo() {
    let mut app = app_with("ab");
    app.editor_backspace();
    assert_eq!(app.editor_content, vec!["ab"]);
    assert!(!app.editor_modified);
    assert_eq!(app.editor_undo_stack.len(), 1);
}

#[test]
fn delete_removes_under_cursor_and_joins_lines() {
    let mut app = app_with("ab\ncd");
    app.editor_delete();
    assert_eq!(app.editor_content, vec!["b", "cd"]);
    app.editor_right();
    app.editor_delete();
    assert_eq!(app.editor_content, vec!["bcd"]);
    app.editor_right();
    app.editor_right();
    app.editor_right();
    assert_eq!(app.editor_cursor, (0, 3));
    app.editor_delete();
    assert_eq!(app.editor_content, vec!["bcd"]);
}

#[test]
fn undo_restores_each_edit_in_turn() {
    let mut app = app_with("ab\ncd");
    app.editor_insert('1');
    app.editor_insert('2');
    app.editor_down();
    assert_eq!(app.editor_cursor, (1, 2));
    app.editor_left();
    app.editor_left();
    app.editor_delete();
    assert_eq!(app.editor_content, vec!["12ab", "d"]);
    app.editor_undo();
    assert_eq!(app.editor_content, vec!["12ab", "cd"]);
    app.editor_undo();
    assert_eq!(app.editor_content, vec!["1ab", "cd"]);
    app.editor_undo();
    assert_eq!(app.editor_content, vec!["ab", "cd"]);
    let before = app.editor_content.clone();
    app.editor_undo();
    assert_eq!(app.editor_content, before);
}

#[test]
fn undo_history_keeps_the_last_hundred() {
    let mut app = app_with("");
    app.editor_content = vec![String::new()];
    for _ in 0..105 {
        app.editor_insert('x');
    }
    assert_eq!(app.editor_undo_stack.len(), 100);
    assert_eq!(app.editor_undo_stack[0], vec!["xxxxx"]);
}

#[test]
fn undo_clamps_the_cursor_line() {
    let mut app = app_with("a\nb\nc");
    app.editor_down();
    app.editor_down();
    app.editor_undo_stack.push(vec!["only".to_string()]);
    app.editor_undo();
    assert_eq!(app.editor_cursor.0, 0);
    assert_eq!(app.editor_content, vec!["only"]);
}

#[test]
fn cursor_moves_stay_inside_lines() {
    let mut app = app_with("long line\nx\nmid");
    for _ in 0..6 {
        app.editor_right();
    }
    assert_eq!(app.editor_cursor, (0, 6));
    app.editor_down();
    assert_eq!(app.editor_cursor, (1, 1));
    app.editor_down();
    assert_eq!(app.editor_cursor, (2, 1));
    app.editor_down();
    assert_eq!(app.editor_cursor, (2, 1));
    app.editor_up();
    app.editor_up();
    app.editor_up();
    assert_eq!(app.editor_cursor, (0, 1));
    app.editor_left();
    app.editor_left();
    assert_eq!(app.editor_cursor, (0, 0));
}

#[test]
fn paging_the_editor() {
    let text: Vec<String> = (0..50).map(|i| format!("line {}", i)).collect();
    let mut app = app_with(&text.join("\n"));
    app.set_list_height(5);
    app.editor_page_down();
    assert_eq!(app.editor_scroll, 10);
    assert_eq!(app.editor_cursor.0, 0);
    app.editor_page_down();
    app.editor_page_down();
    app.editor_page_down();
    assert_eq!(app.editor_scroll, 40);
    app.editor_page_down();
    assert_eq!(app.editor_scroll, 40);
    app.editor_page_up();
    assert_eq!(app.editor_scroll, 30);
    assert_eq!(app.editor_cursor.0, 30);
    app.editor_page_up();
    app.editor_page_up();
    app.editor_page_up();
    app.editor_page_up();
    assert_eq!(app.editor_scroll, 0);
}

#[test]
fn moving_down_scrolls_the_editor() {
    let text: Vec<String> = (0..30).map(|i| i.to_string()).collect();
    let mut app = app_with(&text.join("\n"));
    for _ in 0..12 {
        app.editor_down();
    }
    assert_eq!(app.editor_cursor.0, 12);
    assert_eq!(app.editor_scroll, 0);
    app.set_list_height(4);
    app.editor_down();
    assert_eq!(app.editor_scroll, 4);
    for _ in 0..13 {
        app.editor_up();
    }
    assert_eq!(app.editor_scroll, 0);
}

#[test]
fn editor_text_joins_with_newlines() {
    let app = app_with("a\nb\n");
    assert_eq!(app.editor_text(), "a\nb");
    let app = app_with("x");
    assert_eq!(app.editor_text(), "x");
}

#[test]
fn saving_and_leaving_the_editor() {
    let mut app = app_with("a");
    app.focus = FocusArea::Editor;
    assert!(!app.exit_editor());
    assert_eq!(app.focus, FocusArea::Tree);
    assert!(app.status_message.is_none());
    app.editor_insert('b');
    app.mark_saved();
    assert!(!app.editor_modified);
    assert_eq!(app.status_message, Some("✓ 文件已保存".to_string()));
    app.editor_insert('c');
    assert!(app.exit_editor());
    assert_eq!(app.status_message, Some("⚠ 未保存的修改已丢弃".to_string()));
}

#[test]
fn editor_area_is_recorded() {
    let mut app = app_with("a");
    let r = Rect { x: 40, y: 0, width: 80, height: 30 };
    app.set_editor_area(r);
    assert_eq!(app.editor_area, Some(r));
}

#[test]
fn saving_right_after_loading_writes_the_same_text() {
    for text in ["line one\nline two", "", "单行", "a\n\nb"] {
        let app = app_with(text);
        assert_eq!(app.editor_text(), text);
    }
    // a final line break and carriage returns are not kept
    assert_eq!(app_with("a\r\nb\n").editor_text(), "a\nb");
}

#[test]
fn joining_lines_counts_the_column_in_characters() {
    let mut app = app_with("中\nx");
    app.editor_down();
    app.editor_backspace();
    assert_eq!(app.editor_content, vec!["中x"]);
    assert_eq!(app.editor_cursor, (0, 1));
    app.editor_insert('y');
    assert_eq!(app.editor_content, vec!["中yx"]);
}
