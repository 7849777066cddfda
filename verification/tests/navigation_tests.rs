use ftdv::cli::OperationMode;
use ftdv::config::Config;
use ftdv::keys::{command_for, Command, Key};
use ftdv::navigation::{filter_items, fuzzy_match, Action, App, Phase};
use ftdv::parser::{DiffFileKey, FileDiff};
use ftdv::pathset::PathSet;
use ftdv::tree::FileTreeBuilder;

fn file(path: &str, added: usize, removed: usize) -> FileDiff {
    FileDiff {
        filename: path.to_string(),
        old_path: None,
        new_path: None,
        content: format!("content of {}", path),
        added_lines: added,
        removed_lines: removed,
        diff_key: None,
    }
}

fn keyed(path: &str) -> FileDiff {
    let mut f = file(path, 1, 1);
    f.diff_key = Some(DiffFileKey {
        from_hash: "111".to_string(),
        to_hash: "222".to_string(),
        file_path: path.to_string(),
    });
    f
}

fn sample() -> Vec<FileDiff> {
    vec![file("README.md", 1, 0), file("src/main.rs", 10, 2), file("src/ui/list.rs", 3, 3), keyed("docs/Guide.md")]
}

// Rows of the sample: docs, docs/Guide.md, src, src/ui, src/ui/list.rs, src/main.rs, README.md
fn viewer() -> App {
    App::new(Config::default(), sample(), OperationMode::GitWorkingDirectory, PathSet::new()).unwrap()
}

fn paths(app: &App) -> Vec<String> {
    app.get_current_file_tree_items().iter().map(|r| r.full_path.clone()).collect()
}

fn is_load(action: &Action, expected: &str, expected_fetch: bool) -> bool {
    match action {
        Action::LoadFile { path, fetch } => path == expected && *fetch == expected_fetch,
        _ => false,
    }
}

#[test]
fn test_app_new() {
    let config = Config::default();
    let app = App::new(config, vec![], OperationMode::GitWorkingDirectory, PathSet::new()).unwrap();
    assert!(!app.should_quit());
    assert_eq!(app.selected_index(), 0);
    assert_eq!(app.vertical_scroll(), 0);
    assert_eq!(app.horizontal_scroll(), 0);
}

#[test]
fn a_new_viewer_browses_the_whole_tree() {
    let app = viewer();
    assert_eq!(
        paths(&app),
        vec!["docs", "docs/Guide.md", "src", "src/ui", "src/ui/list.rs", "src/main.rs", "README.md"]
    );
    assert_eq!(app.diff_output(), "content of README.md");
    assert!(!app.search_mode());
    assert!(!app.search_input_mode());
    assert_eq!(app.search_query(), "");
    assert!(app.collapsed_directories().is_empty());
    assert!(app.checked_files().is_empty());
    assert_eq!(app.last_width(), 0);
    assert_eq!(app.original_file_diffs().len(), 4);
    assert_eq!(app.file_tree_items().len(), 7);
    assert_eq!(app.theme().name, "dark");
    assert!(matches!(app.operation_mode(), OperationMode::GitWorkingDirectory));
    assert!(!app.config().git.paging.has_pager());

    let empty = App::new(Config::default(), vec![], OperationMode::GitCached, PathSet::new()).unwrap();
    assert_eq!(empty.diff_output(), "No diff content available");
}

#[test]
fn no_viewer_of_records_whose_totals_overflow() {
    let files = vec![file("a", usize::MAX, 0), file("b", 1, 0)];
    assert!(App::new(Config::default(), files, OperationMode::GitCached, PathSet::new()).is_none());
}

#[test]
fn selection_stays_within_the_list() {
    let mut app = viewer();
    assert!(matches!(app.select_previous(), Action::Nothing));
    assert_eq!(app.selected_index(), 0);
    for expected in 1..7 {
        app.select_next();
        assert_eq!(app.selected_index(), expected);
    }
    assert!(matches!(app.select_next(), Action::Nothing));
    assert_eq!(app.selected_index(), 6);
    app.select_previous();
    assert_eq!(app.selected_index(), 5);
    app.jump_to_top();
    assert_eq!(app.selected_index(), 0);
    app.jump_to_bottom();
    assert_eq!(app.selected_index(), 6);
}

#[test]
fn selection_on_an_empty_list_is_a_no_op() {
    let mut app = App::new(Config::default(), vec![], OperationMode::GitCached, PathSet::new()).unwrap();
    assert!(matches!(app.select_next(), Action::Nothing));
    assert_eq!(app.selected_index(), 0);
    assert!(matches!(app.select_previous(), Action::Nothing));
    assert_eq!(app.selected_index(), 0);
    assert!(matches!(app.jump_to_bottom(), Action::Nothing));
    assert!(matches!(app.jump_to_top(), Action::Nothing));
    assert_eq!(app.selected_index(), 0);
    assert_eq!(app.diff_output(), "No diff content available");
    app.toggle_directory();
    assert!(matches!(app.toggle_file_checked(), Action::Nothing));
    assert!(app.selected_file_path().is_none());
}

#[test]
fn selecting_a_directory_shows_a_placeholder() {
    let mut app = viewer();
    app.scroll_down(7);
    app.scroll_right(3);
    app.select_next();
    app.select_next();
    assert_eq!(app.selected_index(), 2);
    assert_eq!(app.diff_output(), "Directory: src");
    assert_eq!(app.vertical_scroll(), 0);
    assert_eq!(app.horizontal_scroll(), 0);
    assert!(app.selected_is_directory());
}

#[test]
fn selecting_a_file_asks_for_its_content() {
    let mut app = viewer();
    let action = app.select_next();
    assert!(is_load(&action, "docs/Guide.md", true));
    // Nothing is shown before the content is reported.
    assert_eq!(app.diff_output(), "content of README.md");
    app.scroll_down(4);
    app.content_loaded(None);
    assert_eq!(app.diff_output(), "content of docs/Guide.md");
    assert_eq!(app.vertical_scroll(), 0);
    app.content_loaded(Some("fresh".to_string()));
    assert_eq!(app.diff_output(), "fresh");
    app.tool_finished(None);
    assert_eq!(app.diff_output(), "fresh");
    app.tool_finished(Some("formatted".to_string()));
    assert_eq!(app.diff_output(), "formatted");
    assert_eq!(app.selected_file_path().map(|p| p.as_str()), Some("docs/Guide.md"));
}

#[test]
fn content_is_not_fetched_without_a_repository() {
    let mode = OperationMode::Compare { target1: "a".to_string(), target2: "b".to_string() };
    let mut app = App::new(Config::default(), sample(), mode, PathSet::new()).unwrap();
    let action = app.select_next();
    assert!(is_load(&action, "docs/Guide.md", false));
}

#[test]
fn content_of_a_directory_is_not_loaded() {
    let mut app = viewer();
    assert!(matches!(app.update_diff_content(), Action::Nothing));
    assert_eq!(app.diff_output(), "Directory: docs");
    app.content_loaded(Some("ignored".to_string()));
    assert_eq!(app.diff_output(), "Directory: docs");
}

#[test]
fn scrolling_saturates_at_zero_only() {
    let mut app = viewer();
    app.scroll_up(5);
    assert_eq!(app.vertical_scroll(), 0);
    app.scroll_down(10);
    app.scroll_down(20);
    assert_eq!(app.vertical_scroll(), 30);
    app.scroll_up(1);
    assert_eq!(app.vertical_scroll(), 29);
    app.scroll_down(u16::MAX);
    assert_eq!(app.vertical_scroll(), u16::MAX);
    app.scroll_left(5);
    assert_eq!(app.horizontal_scroll(), 0);
    app.scroll_right(20);
    app.scroll_left(5);
    assert_eq!(app.horizontal_scroll(), 15);
}

#[test]
fn collapsing_hides_what_is_below() {
    let mut app = viewer();
    app.select_next();
    app.select_next();
    app.toggle_directory();
    assert_eq!(paths(&app), vec!["docs", "docs/Guide.md", "src", "README.md"]);
    assert_eq!(app.selected_index(), 2);
    assert!(app.collapsed_directories().contains(&"src".to_string()));
    let src = &app.get_current_file_tree_items()[2];
    assert!(!src.is_expanded);
    assert_eq!((src.dir_file_count, src.dir_added_lines, src.dir_removed_lines), (2, 13, 5));
    app.toggle_directory();
    assert_eq!(paths(&app).len(), 7);
    assert!(app.collapsed_directories().is_empty());
}

#[test]
fn collapsing_clamps_a_selection_beyond_the_list() {
    let files = vec![file("a/b/c.rs", 1, 1)];
    let mut app = App::new(Config::default(), files, OperationMode::GitCached, PathSet::new()).unwrap();
    app.toggle_directory();
    assert_eq!(paths(&app), vec!["a"]);
    assert_eq!(app.selected_index(), 0);
    app.toggle_directory();
    app.jump_to_bottom();
    assert_eq!(app.selected_index(), 2);
    // A file is selected: nothing is toggled.
    app.toggle_directory();
    assert_eq!(paths(&app).len(), 3);
}

#[test]
fn directories_are_toggled_while_browsing_only() {
    let mut app = viewer();
    app.enter_search_mode();
    app.confirm_search();
    assert!(app.selected_is_directory());
    app.toggle_directory();
    assert!(app.collapsed_directories().is_empty());
    assert_eq!(app.file_tree_items().len(), 7);
}

#[test]
fn search_filters_by_path_without_regard_to_case() {
    let mut app = viewer();
    app.select_next();
    app.enter_search_mode();
    assert!(app.search_mode());
    assert!(app.search_input_mode());
    assert_eq!(app.selected_index(), 0);
    assert_eq!(paths(&app).len(), 7);
    app.add_search_char('G');
    assert_eq!(paths(&app), vec!["docs/Guide.md"]);
    app.add_search_char('U');
    assert_eq!(app.search_query(), "GU");
    assert_eq!(paths(&app), vec!["docs/Guide.md"]);
    app.add_search_char('x');
    assert!(paths(&app).is_empty());
    assert_eq!(app.selected_index(), 0);
    assert!(matches!(app.select_next(), Action::Nothing));
    app.remove_search_char();
    app.remove_search_char();
    assert_eq!(app.search_query(), "G");
    app.remove_search_char();
    assert_eq!(app.search_query(), "");
    assert_eq!(paths(&app).len(), 7);
    assert!(matches!(app.remove_search_char(), Action::Nothing));
    assert_eq!(paths(&app).len(), 7);
}

#[test]
fn search_subset_on_a_sample() {
    let rows = FileTreeBuilder::build_file_tree(&sample());
    for query in ["", "s", "S", "rc/", "MD", "list", "zzz", "src/ui/list.rs", "/"] {
        let filtered = filter_items(&rows, query);
        let expected: Vec<String> = rows
            .iter()
            .filter(|r| query.is_empty() || r.full_path.to_lowercase().contains(&query.to_lowercase()))
            .map(|r| r.full_path.clone())
            .collect();
        let got: Vec<String> = filtered.iter().map(|r| r.full_path.clone()).collect();
        assert_eq!(got, expected, "query {:?}", query);
    }
    assert_eq!(filter_items(&rows, "md").len(), 2);
}

#[test]
fn matching_ignores_case_on_both_sides() {
    assert!(fuzzy_match("src/Main.rs", "main"));
    assert!(fuzzy_match("src/main.rs", "MAIN"));
    assert!(fuzzy_match("ABC", "abc"));
    assert!(fuzzy_match("abc", ""));
    assert!(!fuzzy_match("abc", "abcd"));
    assert!(!fuzzy_match("src/main.rs", "lib"));
    assert!(fuzzy_match("STRASSE", "strasse"));
}

#[test]
fn confirmed_search_is_navigated() {
    let mut app = viewer();
    app.enter_search_mode();
    app.add_search_char('s');
    app.add_search_char('r');
    app.add_search_char('c');
    app.confirm_search();
    assert!(app.search_mode());
    assert!(!app.search_input_mode());
    assert_eq!(paths(&app), vec!["src", "src/ui", "src/ui/list.rs", "src/main.rs"]);
    // Typing is over: characters change nothing.
    assert!(matches!(app.add_search_char('x'), Action::Nothing));
    assert!(matches!(app.remove_search_char(), Action::Nothing));
    assert_eq!(app.search_query(), "src");
    app.jump_to_bottom();
    assert_eq!(app.selected_index(), 3);
    assert!(matches!(app.select_next(), Action::Nothing));
    let action = app.exit_search_mode();
    assert!(matches!(action, Action::Nothing));
    assert!(!app.search_mode());
    assert_eq!(app.search_query(), "");
    assert_eq!(app.selected_index(), 0);
    assert_eq!(paths(&app).len(), 7);
    assert_eq!(app.diff_output(), "Directory: docs");
}

#[test]
fn entering_search_again_starts_with_an_empty_query() {
    let mut app = viewer();
    app.enter_search_mode();
    app.add_search_char('m');
    app.confirm_search();
    app.select_next();
    app.enter_search_mode();
    assert!(app.search_input_mode());
    assert_eq!(app.search_query(), "");
    assert_eq!(app.selected_index(), 0);
    assert_eq!(paths(&app).len(), 7);
    app.update_search_filter();
    assert_eq!(paths(&app).len(), 7);
}

#[test]
fn checking_a_file_asks_to_store_it() {
    let mut app = viewer();
    // A directory is selected: nothing is checked.
    assert!(matches!(app.toggle_file_checked(), Action::Nothing));
    assert!(app.checked_files().is_empty());
    app.select_next();
    match app.toggle_file_checked() {
        Action::SaveCheckState { key, is_checked } => {
            assert!(is_checked);
            assert_eq!(key.file_path, "docs/Guide.md");
            assert_eq!(key.from_hash, "111");
        }
        other => panic!("unexpected {:?}", other),
    }
    assert!(app.checked_files().contains(&"docs/Guide.md".to_string()));
    match app.toggle_file_checked() {
        Action::SaveCheckState { is_checked, .. } => assert!(!is_checked),
        other => panic!("unexpected {:?}", other),
    }
    assert!(app.checked_files().is_empty());
    // A file without an identity is checked, and nothing is stored.
    app.jump_to_bottom();
    assert!(matches!(app.toggle_file_checked(), Action::Nothing));
    assert!(app.checked_files().contains(&"README.md".to_string()));
}

#[test]
fn files_are_checked_in_a_confirmed_search_but_not_while_typing() {
    let mut app = viewer();
    app.enter_search_mode();
    app.add_search_char('g');
    app.add_search_char('u');
    assert!(matches!(app.toggle_file_checked(), Action::Nothing));
    assert!(app.checked_files().is_empty());
    app.confirm_search();
    assert!(matches!(app.toggle_file_checked(), Action::SaveCheckState { .. }));
    assert!(app.checked_files().contains(&"docs/Guide.md".to_string()));
}

#[test]
fn keys_stand_for_commands() {
    assert_eq!(command_for(Key::Char('q'), false), Command::Leave);
    assert_eq!(command_for(Key::Char('q'), true), Command::Leave);
    assert_eq!(command_for(Key::Esc, true), Command::Leave);
    assert_eq!(command_for(Key::Char('/'), false), Command::EnterSearch);
    assert_eq!(command_for(Key::Char('/'), true), Command::TypeChar('/'));
    assert_eq!(command_for(Key::Enter, true), Command::ConfirmSearch);
    assert_eq!(command_for(Key::Enter, false), Command::Open);
    assert_eq!(command_for(Key::Backspace, true), Command::Backspace);
    assert_eq!(command_for(Key::Backspace, false), Command::Nothing);
    assert_eq!(command_for(Key::Down, false), Command::SelectNext);
    assert_eq!(command_for(Key::Char('j'), false), Command::SelectNext);
    assert_eq!(command_for(Key::Char('j'), true), Command::TypeChar('j'));
    assert_eq!(command_for(Key::Down, true), Command::Nothing);
    assert_eq!(command_for(Key::Up, false), Command::SelectPrevious);
    assert_eq!(command_for(Key::Char('k'), false), Command::SelectPrevious);
    assert_eq!(command_for(Key::Char('g'), false), Command::JumpTop);
    assert_eq!(command_for(Key::Char('G'), false), Command::JumpBottom);
    assert_eq!(command_for(Key::Char('e'), false), Command::ScrollDown(1));
    assert_eq!(command_for(Key::Char('J'), false), Command::ScrollDown(1));
    assert_eq!(command_for(Key::Char('y'), false), Command::ScrollUp(1));
    assert_eq!(command_for(Key::Char('K'), false), Command::ScrollUp(1));
    assert_eq!(command_for(Key::Char('d'), false), Command::ScrollDown(10));
    assert_eq!(command_for(Key::PageDown, false), Command::ScrollDown(10));
    assert_eq!(command_for(Key::Char('u'), false), Command::ScrollUp(10));
    assert_eq!(command_for(Key::PageUp, false), Command::ScrollUp(10));
    assert_eq!(command_for(Key::PageUp, true), Command::Nothing);
    assert_eq!(command_for(Key::Char('f'), false), Command::ScrollDown(20));
    assert_eq!(command_for(Key::Char('b'), false), Command::ScrollUp(20));
    assert_eq!(command_for(Key::Char('h'), false), Command::ScrollLeft(5));
    assert_eq!(command_for(Key::Left, false), Command::ScrollLeft(5));
    assert_eq!(command_for(Key::Char('l'), false), Command::ScrollRight(5));
    assert_eq!(command_for(Key::Right, false), Command::ScrollRight(5));
    assert_eq!(command_for(Key::Char('H'), false), Command::ScrollLeft(20));
    assert_eq!(command_for(Key::Char('L'), false), Command::ScrollRight(20));
    assert_eq!(command_for(Key::Char(' '), false), Command::Show);
    assert_eq!(command_for(Key::Tab, false), Command::ToggleChecked);
    assert_eq!(command_for(Key::Tab, true), Command::ToggleChecked);
    assert_eq!(command_for(Key::Char('x'), false), Command::Nothing);
    assert_eq!(command_for(Key::Other, false), Command::Nothing);
}

#[test]
fn keys_drive_the_viewer() {
    let mut app = viewer();
    app.handle_key(Key::Char('j'));
    app.handle_key(Key::Down);
    assert_eq!(app.selected_index(), 2);
    app.handle_key(Key::Enter);
    assert_eq!(paths(&app), vec!["docs", "docs/Guide.md", "src", "README.md"]);
    app.handle_key(Key::Char('k'));
    let action = app.handle_key(Key::Enter);
    assert!(is_load(&action, "docs/Guide.md", true));
    app.handle_key(Key::Char('d'));
    app.handle_key(Key::Char('L'));
    assert_eq!((app.vertical_scroll(), app.horizontal_scroll()), (10, 20));
    app.handle_key(Key::Char('/'));
    assert!(app.search_input_mode());
    app.handle_key(Key::Char('j'));
    app.handle_key(Key::Char('s'));
    assert_eq!(app.search_query(), "js");
    app.handle_key(Key::Backspace);
    app.handle_key(Key::Backspace);
    app.handle_key(Key::Char('m'));
    app.handle_key(Key::Char('d'));
    app.handle_key(Key::Down);
    assert_eq!(app.selected_index(), 0);
    app.handle_key(Key::Enter);
    assert!(!app.search_input_mode());
    assert_eq!(paths(&app), vec!["docs/Guide.md", "README.md"]);
    app.handle_key(Key::Char('G'));
    assert_eq!(app.selected_index(), 1);
    assert!(matches!(app.handle_key(Key::Tab), Action::Nothing));
    assert!(app.checked_files().contains(&"README.md".to_string()));
    assert!(!app.should_quit());
    app.handle_key(Key::Char('q'));
    assert!(!app.search_mode());
    assert!(!app.should_quit());
    app.handle_key(Key::Esc);
    assert!(app.should_quit());
    app.apply(Command::JumpBottom);
    assert_eq!(app.selected_index(), 3);
}

#[test]
fn a_key_pressed_on_a_directory_in_a_search_shows_it() {
    let mut app = viewer();
    app.handle_key(Key::Char('/'));
    app.handle_key(Key::Char('s'));
    app.handle_key(Key::Enter);
    assert!(app.selected_is_directory());
    app.handle_key(Key::Char('j'));
    app.handle_key(Key::Char('k'));
    assert!(matches!(app.handle_key(Key::Enter), Action::Nothing));
    assert_eq!(app.diff_output(), "Directory: docs");
    assert_eq!(app.file_tree_items().len(), 7);
    assert!(matches!(app.handle_key(Key::Char(' ')), Action::Nothing));
}

#[test]
fn quitting_is_asked_for() {
    let mut app = viewer();
    app.quit();
    assert!(app.should_quit());
}

#[test]
fn the_viewer_goes_through_its_three_states() {
    let mut app = viewer();
    assert_eq!(app.phase(), Phase::Browsing);
    app.enter_search_mode();
    assert_eq!(app.phase(), Phase::SearchTyping);
    app.confirm_search();
    assert_eq!(app.phase(), Phase::SearchBrowsing);
    app.enter_search_mode();
    assert_eq!(app.phase(), Phase::SearchTyping);
    app.exit_search_mode();
    assert_eq!(app.phase(), Phase::Browsing);
    app.enter_search_mode();
    app.confirm_search();
    app.exit_search_mode();
    assert_eq!(app.phase(), Phase::Browsing);
}

#[test]
fn the_stored_content_is_formatted_where_no_fresh_one_came() {
    let mut app = viewer();
    assert_eq!(app.reformat_base(Some("fresh".to_string())), None);
    app.select_next();
    assert_eq!(app.reformat_base(None), Some("content of docs/Guide.md".to_string()));
    assert_eq!(app.reformat_base(Some("fresh".to_string())), Some("fresh".to_string()));
}
