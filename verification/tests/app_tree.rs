use git_explorer::app::{App, AppMode, AppState, DisplayMode, FocusArea};
use git_explorer::editor::Followup;
use git_explorer::git::{FileEntry, GitStatus};
use git_explorer::manager::GitStatusManager;

fn entry(path: &str, status: GitStatus, is_dir: bool, depth: usize) -> FileEntry {
    FileEntry { path: path.to_string(), status, is_dir, depth }
}

fn files() -> Vec<FileEntry> {
    vec![
        entry("src", GitStatus::Modified, true, 0),
        entry("src/app", GitStatus::Clean, true, 1),
        entry("src/app/core.rs", GitStatus::Clean, false, 2),
        entry("src/main.rs", GitStatus::Modified, false, 1),
        entry("README.md", GitStatus::Untracked, false, 0),
        entry("Cargo.toml", GitStatus::Clean, false, 0),
    ]
}

fn new_app() -> App {
    App::new("/work", GitStatusManager::new("/work", true, None), Ok(files()))
}

fn listed(app: &App) -> Vec<String> {
    app.get_filtered_paths().clone()
}

#[test]
fn new_app_starts_with_every_directory_collapsed() {
    let app = new_app();
    assert_eq!(app.working_dir, "/work");
    assert_eq!(app.state, AppState::Running);
    assert_eq!(app.focus, FocusArea::Tree);
    assert_eq!(app.display_mode, DisplayMode::All);
    assert_eq!(app.mode, AppMode::Normal);
    assert_eq!(app.list_height, 20);
    assert_eq!(app.tree_width, 40);
    assert!(app.is_collapsed("src"));
    assert!(app.is_collapsed("src/app"));
    assert!(!app.is_collapsed("src/main.rs"));
    assert_eq!(listed(&app), vec!["src", "README.md", "Cargo.toml"]);
    assert_eq!(app.selected, 0);
    assert!(app.error_message.is_none());
}

#[test]
fn new_app_with_a_failed_scan_keeps_the_error() {
    let app = App::new("/work", GitStatusManager::new("/work", true, None), Err("boom".to_string()));
    assert!(app.files.is_empty());
    assert!(listed(&app).is_empty());
    assert_eq!(app.error_message, Some("boom".to_string()));
}

#[test]
fn should_show_follows_collapsed_parents() {
    let app = new_app();
    assert!(app.should_show("src"));
    assert!(app.should_show("README.md"));
    assert!(!app.should_show("src/main.rs"));
    assert!(!app.should_show("src/app/core.rs"));
}

#[test]
fn expanding_a_directory_asks_for_a_refresh() {
    let mut app = new_app();
    assert_eq!(app.selected_file().unwrap().path, "src");
    assert!(app.toggle_collapse());
    assert!(!app.is_collapsed("src"));
    assert!(app.git_manager.is_expanded("src"));
    app.refresh_files(Ok(files()));
    app.clamp_selected();
    assert_eq!(listed(&app), vec!["src", "src/app", "src/main.rs", "README.md", "Cargo.toml"]);
    assert!(app.is_collapsed("src/app"));
}

#[test]
fn collapsing_from_a_file_folds_its_parent() {
    let mut app = new_app();
    app.toggle_collapse();
    app.refresh_files(Ok(files()));
    app.selected = 2;
    assert_eq!(app.selected_file().unwrap().path, "src/main.rs");
    assert!(!app.toggle_collapse());
    assert!(app.is_collapsed("src"));
    assert!(!app.git_manager.is_expanded("src"));
    assert_eq!(listed(&app), vec!["src", "README.md", "Cargo.toml"]);
    assert_eq!(app.selected, 2);
}

#[test]
fn collapsing_a_top_level_file_does_nothing() {
    let mut app = new_app();
    app.selected = 1;
    assert!(!app.toggle_collapse());
    assert_eq!(listed(&app), vec!["src", "README.md", "Cargo.toml"]);
}

#[test]
fn refresh_keeps_selection_in_range_and_marks_new_directories_collapsed() {
    let mut app = new_app();
    app.selected = 2;
    let mut fewer = files();
    fewer.truncate(2);
    fewer.push(entry("docs", GitStatus::Clean, true, 0));
    app.refresh_files(Ok(fewer));
    assert_eq!(listed(&app), vec!["src", "docs"]);
    assert_eq!(app.selected, 1);
    assert!(app.is_collapsed("docs"));
    app.refresh_files(Err("later".to_string()));
    assert_eq!(app.error_message, Some("later".to_string()));
    assert_eq!(listed(&app), vec!["src", "docs"]);
    app.refresh_files(Ok(files()));
    assert!(app.error_message.is_none());
}

#[test]
fn display_mode_cycles_through_three_filters() {
    let mut app = new_app();
    app.toggle_collapse();
    app.refresh_files(Ok(files()));
    app.selected = 3;
    app.toggle_display_mode();
    assert_eq!(app.display_mode, DisplayMode::Changed);
    assert_eq!(listed(&app), vec!["src", "src/main.rs", "README.md"]);
    assert_eq!(app.selected, 0);
    app.toggle_display_mode();
    assert_eq!(app.display_mode, DisplayMode::TrackedOnly);
    assert_eq!(listed(&app), vec!["src", "src/app", "src/main.rs", "Cargo.toml"]);
    app.toggle_display_mode();
    assert_eq!(app.display_mode, DisplayMode::All);
    assert_eq!(listed(&app), vec!["src", "src/app", "src/main.rs", "README.md", "Cargo.toml"]);
}

#[test]
fn selection_moves_and_scrolls() {
    let mut app = new_app();
    app.set_list_height(2);
    app.select_previous();
    assert_eq!(app.selected, 0);
    app.select_next();
    app.select_next();
    assert_eq!(app.selected, 2);
    assert_eq!(app.scroll_offset, 1);
    app.select_next();
    assert_eq!(app.selected, 2);
    app.select_previous();
    app.select_previous();
    assert_eq!(app.selected, 0);
    assert_eq!(app.scroll_offset, 0);
}

#[test]
fn lookups_by_path_and_index() {
    let app = new_app();
    assert_eq!(app.get_file_by_path("src/app/core.rs").unwrap().depth, 2);
    assert!(app.get_file_by_path("nope").is_none());
    assert_eq!(app.get_file_by_index(1).unwrap().path, "README.md");
    assert!(app.get_file_by_index(3).is_none());
}

#[test]
fn stats_count_statuses() {
    let app = new_app();
    let st = app.get_stats();
    assert_eq!(st.total, 6);
    assert_eq!(st.modified, 2);
    assert_eq!(st.untracked, 1);
    assert_eq!(st.clean, 3);
    assert_eq!(st.added, 0);
    assert_eq!(st.deleted, 0);
    assert_eq!(st.renamed, 0);
}

#[test]
fn search_selects_first_match_ignoring_case() {
    let mut app = new_app();
    app.toggle_collapse();
    app.refresh_files(Ok(files()));
    app.toggle_search();
    assert_eq!(app.mode, AppMode::Search);
    app.search_input('M');
    assert_eq!(app.search_query, "M");
    assert_eq!(app.selected, 2);
    app.search_input('a');
    assert_eq!(app.selected, 2);
    app.search_backspace();
    app.search_backspace();
    assert_eq!(app.search_query, "");
    app.search_backspace();
    assert_eq!(app.search_query, "");
    for c in "READ".chars() {
        app.search_input(c);
    }
    assert_eq!(app.selected, 3);
    app.search_input('z');
    assert_eq!(app.selected, 3);
    app.toggle_search();
    assert_eq!(app.mode, AppMode::Normal);
    assert_eq!(app.search_query, "");
}

#[test]
fn search_scrolls_the_match_into_view() {
    let mut app = new_app();
    app.toggle_collapse();
    app.refresh_files(Ok(files()));
    app.set_list_height(2);
    app.search_input('T');
    assert_eq!(app.selected, 4);
    assert_eq!(app.scroll_offset, 3);
}

#[test]
fn help_quit_and_focus_toggles() {
    let mut app = new_app();
    app.toggle_help();
    assert!(app.show_help);
    app.toggle_help();
    assert!(!app.show_help);
    app.toggle_focus();
    assert_eq!(app.focus, FocusArea::Editor);
    app.toggle_focus();
    assert_eq!(app.focus, FocusArea::Tree);
    app.quit();
    assert_eq!(app.state, AppState::Quit);
}

#[test]
fn open_editor_on_directory_and_file() {
    let mut app = new_app();
    match app.open_editor() {
        Followup::Refresh => {}
        _ => panic!("expanding a directory needs a refresh"),
    }
    app.refresh_files(Ok(files()));
    match app.open_editor() {
        Followup::Done => {}
        _ => panic!("collapsing a directory needs nothing more"),
    }
    app.selected = 1;
    match app.open_editor() {
        Followup::Load(p) => assert_eq!(p, "README.md"),
        _ => panic!("a file is loaded"),
    }
    assert_eq!(app.focus, FocusArea::Editor);
}

#[test]
fn search_with_other_case_selects_the_same_row() {
    let mut upper = new_app();
    upper.toggle_collapse();
    upper.refresh_files(Ok(files()));
    let mut lower = new_app();
    lower.toggle_collapse();
    lower.refresh_files(Ok(files()));
    for c in "MAIN".chars() {
        upper.search_input(c);
    }
    for c in "main".chars() {
        lower.search_input(c);
    }
    assert_eq!(upper.selected, 2);
    assert_eq!(upper.selected, lower.selected);
    assert_eq!(upper.scroll_offset, lower.scroll_offset);
}

#[test]
fn moving_the_selection_keeps_it_in_view() {
    let mut app = new_app();
    app.toggle_collapse();
    app.refresh_files(Ok(files()));
    app.set_list_height(2);
    for _ in 0..4 {
        app.select_next();
        assert!(app.scroll_offset <= app.selected && app.selected < app.scroll_offset + 2);
    }
    for _ in 0..4 {
        app.select_previous();
        assert!(app.scroll_offset <= app.selected && app.selected < app.scroll_offset + 2);
    }
}

#[test]
fn refresh_is_due_once_the_interval_has_passed() {
    let mut app = new_app();
    assert_eq!(app.refresh_interval, 2);
    assert!(!app.should_refresh(0));
    assert!(!app.should_refresh(1));
    assert!(app.should_refresh(2));
    assert!(app.should_refresh(60));
    app.refresh_interval = 0;
    assert!(app.should_refresh(0));
}

#[test]
fn three_display_mode_toggles_give_back_the_listing() {
    let mut app = new_app();
    assert!(app.toggle_collapse());
    app.refresh_files(Ok(files()));
    let before = listed(&app);
    assert_eq!(before, vec!["src", "src/app", "src/main.rs", "README.md", "Cargo.toml"]);
    let mode = app.display_mode;
    app.toggle_display_mode();
    app.toggle_display_mode();
    app.toggle_display_mode();
    assert_eq!(app.display_mode, mode);
    assert_eq!(listed(&app), before);
    assert_eq!(app.selected, 0);
}
