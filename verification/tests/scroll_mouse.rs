use git_explorer::app::{App, FocusArea, Rect};
use git_explorer::editor::Followup;
use git_explorer::git::{FileEntry, GitStatus};
use git_explorer::manager::GitStatusManager;
use git_explorer::scroll::MouseKind;

fn flat_app(n: usize) -> App {
    let mut files = vec![FileEntry { path: "dir".to_string(), status: GitStatus::Clean, is_dir: true, depth: 0 }];
    for i in 1..n {
        files.push(FileEntry { path: format!("f{:02}", i), status: GitStatus::Clean, is_dir: false, depth: 0 });
    }
    App::new(".", GitStatusManager::new(".", false, None), Ok(files))
}

#[test]
fn page_down_and_up_in_the_tree() {
    let mut app = flat_app(25);
    app.set_list_height(10);
    app.page_down();
    assert_eq!(app.scroll_offset, 10);
    assert_eq!(app.selected, 10);
    app.page_down();
    assert_eq!(app.scroll_offset, 15);
    assert_eq!(app.selected, 20);
    app.page_down();
    assert_eq!(app.scroll_offset, 15);
    assert_eq!(app.selected, 24);
    app.page_up();
    assert_eq!(app.scroll_offset, 5);
    assert_eq!(app.selected, 5);
    app.page_up();
    assert_eq!(app.scroll_offset, 0);
    assert_eq!(app.selected, 0);
}

#[test]
fn scrolling_the_tree_drags_the_selection() {
    let mut app = flat_app(25);
    app.set_list_height(10);
    app.scroll_down(3);
    assert_eq!(app.scroll_offset, 3);
    assert_eq!(app.selected, 3);
    app.scroll_down(100);
    assert_eq!(app.scroll_offset, 15);
    assert_eq!(app.selected, 15);
    app.scroll_up(0);
    assert_eq!(app.scroll_offset, 15);
    app.scroll_up(4);
    assert_eq!(app.scroll_offset, 11);
    assert_eq!(app.selected, 15);
    app.selected = 20;
    app.scroll_up(2);
    assert_eq!(app.scroll_offset, 9);
    assert_eq!(app.selected, 18);
    app.scroll_up(50);
    assert_eq!(app.scroll_offset, 0);
    assert_eq!(app.selected, 9);
}

#[test]
fn scrolling_the_editor() {
    let mut app = flat_app(2);
    let text: Vec<String> = (0..25).map(|i| i.to_string()).collect();
    app.load_editor("f".to_string(), &text.join("\n"), Default::default());
    app.editor_scroll_down(3);
    assert_eq!(app.editor_scroll, 3);
    app.editor_scroll_down(100);
    assert_eq!(app.editor_scroll, 5);
    app.editor_scroll_up(2);
    assert_eq!(app.editor_scroll, 3);
    app.editor_scroll_up(7);
    assert_eq!(app.editor_scroll, 0);
}

#[test]
fn clicking_tree_rows_selects_then_acts() {
    let mut app = flat_app(5);
    let (hit, follow) = app.handle_mouse_click(6, 3, MouseKind::LeftDown);
    assert!(hit);
    assert!(matches!(follow, Followup::Done));
    assert_eq!(app.selected, 2);
    assert_eq!(app.hover_row, Some(6));
    assert_eq!(app.hover_col, Some(3));
    let (hit, follow) = app.handle_mouse_click(6, 3, MouseKind::LeftDown);
    assert!(hit);
    match follow {
        Followup::Load(p) => assert_eq!(p, "f02"),
        _ => panic!("clicking the selected file opens it"),
    }
    assert_eq!(app.focus, FocusArea::Tree);
    let (hit, _) = app.handle_mouse_click(2, 3, MouseKind::LeftDown);
    assert!(!hit);
    let (hit, _) = app.handle_mouse_click(20, 3, MouseKind::LeftDown);
    assert!(!hit);
    let (hit, _) = app.handle_mouse_click(6, 45, MouseKind::LeftDown);
    assert!(!hit);
}

#[test]
fn clicking_the_selected_directory_toggles_it() {
    let mut app = flat_app(3);
    assert!(app.is_collapsed("dir"));
    let (hit, follow) = app.handle_mouse_click(4, 0, MouseKind::LeftDown);
    assert!(hit);
    assert!(matches!(follow, Followup::Refresh));
    assert!(!app.is_collapsed("dir"));
    assert!(app.git_manager.is_expanded("dir"));
}

#[test]
fn clicking_in_the_editor_moves_the_cursor() {
    let mut app = flat_app(2);
    app.load_editor("f".to_string(), "hello\nab\nxyz", Default::default());
    app.set_editor_area(Rect { x: 40, y: 0, width: 60, height: 20 });
    let (hit, follow) = app.handle_mouse_click(2, 50, MouseKind::LeftDown);
    assert!(!hit);
    assert!(matches!(follow, Followup::Done));
    assert_eq!(app.focus, FocusArea::Editor);
    assert_eq!(app.editor_cursor, (1, 2));
    app.editor_mouse_click(1, 49);
    assert_eq!(app.editor_cursor, (0, 2));
    app.editor_mouse_click(10, 30);
    assert_eq!(app.editor_cursor, (2, 0));
    app.editor_mouse_click(0, 60);
    assert_eq!(app.editor_cursor, (2, 0));
}

#[test]
fn middle_drag_scrolls_the_pane_under_the_pointer() {
    let mut app = flat_app(25);
    app.set_list_height(10);
    app.handle_middle_drag(10, 3);
    assert_eq!(app.scroll_offset, 0);
    let (hit, _) = app.handle_mouse_click(10, 3, MouseKind::MiddleDown);
    assert!(!hit);
    assert!(app.is_middle_dragging);
    app.handle_middle_drag(14, 3);
    assert_eq!(app.scroll_offset, 4);
    assert_eq!(app.middle_drag_origin, Some(14));
    app.handle_middle_drag(12, 3);
    assert_eq!(app.scroll_offset, 2);
    let text: Vec<String> = (0..40).map(|i| i.to_string()).collect();
    app.load_editor("f".to_string(), &text.join("\n"), Default::default());
    app.handle_middle_drag(17, 50);
    assert_eq!(app.editor_scroll, 5);
    app.stop_middle_drag();
    assert!(!app.is_middle_dragging);
    assert_eq!(app.middle_drag_origin, None);
    app.handle_middle_drag(30, 50);
    assert_eq!(app.editor_scroll, 5);
}

#[test]
fn other_mouse_events_only_record_the_hover() {
    let mut app = flat_app(3);
    let (hit, _) = app.handle_mouse_click(5, 5, MouseKind::Other);
    assert!(!hit);
    assert_eq!(app.selected, 0);
    assert_eq!(app.hover_row, Some(5));
}
