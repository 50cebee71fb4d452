use std::collections::HashMap;

use git_explorer::app::{App, FocusArea, Rect};
use git_explorer::git::{DiffLineType, FileEntry, GitStatus};
use git_explorer::manager::GitStatusManager;
use git_explorer::view::{help_lines, Tone};

fn entry(path: &str, status: GitStatus, is_dir: bool, depth: usize) -> FileEntry {
    FileEntry { path: path.to_string(), status, is_dir, depth }
}

fn files() -> Vec<FileEntry> {
    vec![
        entry("src", GitStatus::Modified, true, 0),
        entry("src/app", GitStatus::Clean, true, 1),
        entry("src/app/core.rs", GitStatus::Clean, false, 2),
        entry("src/main.rs", GitStatus::Modified, false, 1),
        entry("README.md", GitStatus::Untracked, false, 0),
        entry("Cargo.toml", GitStatus::Clean, false, 0),
    ]
}

fn new_app() -> App {
    App::new("/work", GitStatusManager::new("/work", true, None), Ok(files()))
}

#[test]
fn header_names_the_kind_of_directory() {
    assert_eq!(new_app().header_text(), " ⎇ Git - /work");
    let plain = App::new("/tmp", GitStatusManager::new("/tmp", false, None), Ok(Vec::new()));
    assert_eq!(plain.header_text(), " 📁 文件 - /tmp");
}

#[test]
fn tree_rows_show_indent_fold_symbol_and_name() {
    let mut app = new_app();
    let area = Rect { x: 0, y: 3, width: 40, height: 10 };
    let rows = app.tree_rows(area);
    let texts: Vec<String> = rows.iter().map(|r| r.text.clone()).collect();
    assert_eq!(texts, vec!["▶  M  src/", "   ?? README.md", "      Cargo.toml"]);
    assert_eq!(rows[0].tone, Tone::Yellow);
    assert_eq!(rows[0].background, Tone::SelectedFocused);
    assert!(rows[0].bold);
    assert_eq!(rows[1].tone, Tone::Gray);
    assert_eq!(rows[1].background, Tone::Reset);
    assert_eq!(rows[2].tone, Tone::White);

    app.toggle_collapse();
    app.refresh_files(Ok(files()));
    let rows = app.tree_rows(area);
    assert_eq!(rows[0].text, "▼  M  src/");
    assert_eq!(rows[1].text, "  ▶     app/");
    assert_eq!(rows[2].text, "     M  main.rs");
}

#[test]
fn tree_rows_follow_focus_hover_and_window() {
    let mut app = new_app();
    app.focus = FocusArea::Editor;
    app.hover_row = Some(5);
    app.hover_col = Some(2);
    let area = Rect { x: 0, y: 3, width: 40, height: 4 };
    let rows = app.tree_rows(area);
    assert_eq!(rows.len(), 2);
    assert_eq!(rows[0].background, Tone::SelectedBlurred);
    assert!(!rows[0].bold);
    assert_eq!(rows[1].background, Tone::Hover);
    app.hover_col = Some(40);
    assert_eq!(app.tree_rows(area)[1].background, Tone::Reset);
    app.scroll_offset = 2;
    let rows = app.tree_rows(area);
    assert_eq!(rows.len(), 1);
    assert_eq!(rows[0].text, "      Cargo.toml");
    assert!(app.tree_rows(Rect { x: 0, y: 0, width: 10, height: 1 }).is_empty());
}

#[test]
fn tree_title_and_border() {
    let mut app = new_app();
    assert_eq!(app.tree_title(), " EXPLORER: /WORK ");
    assert_eq!(app.tree_border(), Tone::Blue);
    app.toggle_focus();
    assert_eq!(app.tree_border(), Tone::DarkGray);
}

#[test]
fn status_bar_counts_entry_and_hints() {
    let mut app = new_app();
    let full = app.status_bar_text(200);
    assert_eq!(
        full,
        " M:2 A:0 D:0 U:1 | 模式：全部 | 刷新：2s  📁 src/ Tab 切换 | Enter 编辑 | q 退出 | ? 帮助"
    );
    assert_eq!(
        app.status_bar_text(109),
        " M:2 A:0 D:0 U:1 | 模式：全部 | 刷新：2s  📁 src/ Tab 切换 | Enter 编辑 | q 退出 | ? 帮助"
    );
    assert!(app.status_bar_text(108).contains(" 📁 ... Tab"));
    assert!(app.status_bar_text(107).contains(" 📁... Tab"));
    assert!(app.status_bar_text(20).contains("  ... Tab"));
    assert!(app.status_bar_fits_exec(200));
    assert!(app.status_bar_fits_exec(108));
    assert!(app.status_bar_fits_exec(107));
    assert!(!app.status_bar_fits_exec(106));
    assert!(app.status_bar_fits_exec(20));
    app.selected = 1;
    app.toggle_focus();
    app.toggle_display_mode();
    let bar = app.status_bar_text(300);
    assert!(bar.contains("模式：变更"));
    assert!(bar.ends_with("Ctrl+S 保存 | Esc 返回 | q 保存返回"));
    let empty = App::new("/x", GitStatusManager::new("/x", false, None), Ok(Vec::new()));
    assert!(empty.status_bar_text(300).contains(" 无文件 "));
}

fn editor_app(content: &str) -> App {
    let mut app = new_app();
    let mut marks = HashMap::new();
    marks.insert(1usize, DiffLineType::Modified);
    marks.insert(3usize, DiffLineType::Added);
    app.load_editor("a.txt".to_string(), content, marks);
    app
}

#[test]
fn editor_rows_mark_diff_edits_and_cursor() {
    let mut app = editor_app("ab\ncd\n");
    let rows = app.editor_rows(5);
    assert_eq!(rows.len(), 2);
    assert_eq!(rows[0].gutter, "┃");
    assert_eq!(rows[0].gutter_tone, Tone::GutterBlue);
    assert_eq!(rows[0].number, "1    ");
    assert_eq!(rows[0].number_tone, Tone::GutterBlue);
    assert_eq!(rows[0].text, "ab");
    assert_eq!(rows[0].text_tone, Tone::Gray);
    assert_eq!(rows[0].background, Tone::ChangedLine);
    assert_eq!(rows[1].gutter, " ");
    assert_eq!(rows[1].number_tone, Tone::DarkGray);
    assert_eq!(rows[1].background, Tone::Reset);

    app.focus = FocusArea::Editor;
    app.editor_down();
    app.editor_insert('x');
    app.editor_insert_newline();
    let rows = app.editor_rows(5);
    assert_eq!(rows.len(), 3);
    assert_eq!(rows[1].gutter, "┃");
    assert_eq!(rows[1].gutter_tone, Tone::Yellow);
    assert_eq!(rows[2].gutter, "┃");
    assert_eq!(rows[2].gutter_tone, Tone::Green);
    assert_eq!(rows[2].background, Tone::CursorLine);
    assert_eq!(rows[2].text_tone, Tone::White);
    assert_eq!(rows[2].number, "3    ");
}

#[test]
fn editor_view_stays_above_the_end() {
    let text: Vec<String> = (0..30).map(|i| i.to_string()).collect();
    let mut app = editor_app(&text.join("\n"));
    app.editor_scroll = 25;
    assert_eq!(app.editor_view_top(10), 20);
    let rows = app.editor_rows(10);
    assert_eq!(rows.len(), 10);
    assert_eq!(rows[0].text, "20");
    assert_eq!(rows[0].number, "21   ");
    app.editor_scroll = 3;
    assert_eq!(app.editor_view_top(10), 3);
    assert_eq!(app.editor_rows(0).len(), 0);
}

#[test]
fn editor_title_border_and_cursor() {
    let mut app = editor_app("中x\nb");
    assert_eq!(app.editor_title(), " 编辑器：a.txt ");
    assert_eq!(app.editor_border(), Tone::Green);
    let area = Rect { x: 40, y: 0, width: 60, height: 20 };
    assert_eq!(app.editor_cursor_position(area, 18), None);
    app.focus = FocusArea::Editor;
    assert_eq!(app.editor_cursor_position(area, 18), Some((47, 1)));
    app.editor_right();
    assert_eq!(app.editor_cursor_position(area, 18), Some((49, 1)));
    app.editor_insert('y');
    assert_eq!(app.editor_title(), " 编辑器：a.txt * (Ctrl+S 保存) ");
    assert_eq!(app.editor_border(), Tone::Red);
    app.editor_down();
    assert_eq!(app.editor_cursor_position(area, 18), Some((48, 2)));
    app.focus = FocusArea::Tree;
    assert_eq!(app.editor_title(), " 编辑器：a.txt * ");
    assert_eq!(app.cursor_cell(area, 0, 3), (50, 2));
}

#[test]
fn preview_of_a_directory_counts_what_lies_under_it() {
    let app = new_app();
    assert!(app.preview_source().is_none());
    let p = app.preview(20, None, Vec::new());
    assert_eq!(p.title, Some(" 目录预览 ".to_string()));
    assert_eq!(p.border, Tone::Cyan);
    let texts: Vec<String> = p.lines.iter().map(|l| l.text.clone()).collect();
    assert_eq!(texts, vec!["", "  📁 src", "", "  子项数量：3", "", "  按 Enter 展开目录"]);
}

#[test]
fn preview_of_a_file_numbers_and_highlights_lines() {
    let mut app = new_app();
    app.selected = 1;
    assert_eq!(app.preview_source(), Some(("README.md".to_string(), false)));
    let p = app.preview(6, Some("x\ny\nz".to_string()), vec![2]);
    assert_eq!(p.title, Some(" 预览：README.md ".to_string()));
    assert_eq!(p.border, Tone::Green);
    assert_eq!(p.background, Tone::Black);
    let texts: Vec<String> = p.lines.iter().map(|l| l.text.clone()).collect();
    assert_eq!(texts, vec![" 📄 README.md ", " 状态：未跟踪 | 大小：3 行", "", "1    x", "2    y"]);
    assert_eq!(p.lines[0].background, Tone::DarkGray);
    assert_eq!(p.lines[3].tone, Tone::Gray);
    assert_eq!(p.lines[4].tone, Tone::Yellow);
    assert_eq!(p.lines[4].background, Tone::PreviewChanged);
    let unreadable = app.preview(10, None, Vec::new());
    assert_eq!(unreadable.lines[1].text, " 状态：未跟踪 | 大小：1 行");
    assert_eq!(unreadable.lines[3].text, "1    无法读取文件（可能是二进制文件）");
    let none = App::new("/x", GitStatusManager::new("/x", false, None), Ok(Vec::new())).preview(10, None, Vec::new());
    assert!(none.title.is_none());
    assert_eq!(none.lines[2].text, "  没有选中的文件");
}

#[test]
fn overlay_texts() {
    let help = help_lines();
    assert_eq!(help.len(), 43);
    assert_eq!(help[1], " │ 目录树导航 (左侧) ");
    assert_eq!(help[42], "");
    let mut app = new_app();
    app.error_message = Some("boom".to_string());
    assert_eq!(app.error_lines(), vec!["", "  boom", "", " 按任意键继续..."]);
    assert!(app.status_message_lines().is_none());
    app.status_message = Some("ok".to_string());
    assert_eq!(app.status_message_lines(), Some(vec!["".to_string(), "  ok".to_string(), "".to_string()]));
    app.search_input('a');
    app.search_input('é');
    assert_eq!(app.search_lines(), vec!["", "  搜索：aé", "", "  按 Enter 确认，Esc 取消"]);
    assert_eq!(app.search_cursor(Rect { x: 10, y: 5, width: 30, height: 6 }), (18, 7));
}
