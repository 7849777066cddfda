use ftdv::cli::OperationMode;
use ftdv::config::Config;
use ftdv::navigation::{Action, App};
use ftdv::parser::FileDiff;
use ftdv::pathset::PathSet;
use ftdv::render::{
    render_diff_content, render_file_list, render_row, render_search_box, render_status_line, ui,
    ScreenLayout, Span, SpanStyle,
};
use ftdv::tree::{FileTreeBuilder, FileTreeItem};

fn file(path: &str, added: usize, removed: usize) -> FileDiff {
    FileDiff {
        filename: path.to_string(),
        old_path: None,
        new_path: None,
        content: format!("content of {}", path),
        added_lines: added,
        removed_lines: removed,
        diff_key: None,
    }
}

fn texts(spans: &[Span]) -> Vec<String> {
    spans.iter().map(|s| s.text.clone()).collect()
}

fn styles(spans: &[Span]) -> Vec<SpanStyle> {
    spans.iter().map(|s| s.style).collect()
}

fn line_text(spans: &[Span]) -> String {
    texts(spans).concat()
}

#[test]
fn test_render_file_list() {
    let config = Config::default();
    let file_diffs = vec![
        FileDiff {
            filename: "test1.rs".to_string(),
            old_path: None,
            new_path: None,
            content: "test content".to_string(),
            added_lines: 1,
            removed_lines: 0,
            diff_key: None,
        },
        FileDiff {
            filename: "test2.rs".to_string(),
            old_path: None,
            new_path: None,
            content: "test content 2".to_string(),
            added_lines: 0,
            removed_lines: 1,
            diff_key: None,
        },
    ];
    let app = App::new(config, file_diffs, OperationMode::GitWorkingDirectory, PathSet::new()).unwrap();

    let list = render_file_list(&app, 40);
    let mut content = list.title.clone();
    for line in &list.lines {
        content.push('\n');
        content.push_str(&line_text(&line.spans));
    }
    assert!(content.contains("Files & Directories"));
    assert!(content.contains("test1.rs"));
    assert!(content.contains("test2.rs"));
    assert_eq!(list.title, " Files & Directories (2 items)");
    assert_eq!(list.lines.len(), 2);
    assert!(list.lines[0].selected);
    assert!(!list.lines[1].selected);
}

#[test]
fn test_render_diff_content() {
    let config = Config::default();
    let mut app = App::new(config, vec![], OperationMode::GitWorkingDirectory, PathSet::new()).unwrap();

    let (title, action) = render_diff_content(&mut app, 20, 60);
    assert!(title.contains("Diff Content"));
    assert!(app.diff_output().contains("No diff content available"));
    assert_eq!(title, "Diff Content (using git diff) - [h/l: scroll, j/k: files, g/G: jump]");
    assert!(matches!(action, Action::Nothing));
}

fn rows() -> Vec<FileTreeItem> {
    FileTreeBuilder::build_file_tree(&[
        file("src/ui/list.rs", 3, 4),
        file("src/main.rs", 12, 0),
        file("README.md", 1, 1),
    ])
}

// Rows: src, src/ui, src/ui/list.rs, src/main.rs, README.md

#[test]
fn a_file_row_has_prefix_checkbox_icon_name_and_statistics() {
    let rows = rows();
    let spans = render_row(&rows[2], false, false, 40);
    assert_eq!(
        texts(&spans),
        vec![
            "\u{2502} \u{2502} \u{2570} ".to_string(),
            "\u{2610} ".to_string(),
            "\u{e7a8} ".to_string(),
            "list.rs".to_string(),
            " ".repeat(40 - 6 - 2 - 2 - 7 - 6),
            "+3 ".to_string(),
            "-4".to_string(),
        ]
    );
    assert_eq!(
        styles(&spans),
        vec![
            SpanStyle::TreeLine,
            SpanStyle::Primary,
            SpanStyle::Raw,
            SpanStyle::File,
            SpanStyle::Raw,
            SpanStyle::Added,
            SpanStyle::Removed,
        ]
    );
}

#[test]
fn guides_are_blank_below_a_last_child() {
    let rows = FileTreeBuilder::build_file_tree(&[file("a/b/c.rs", 1, 1), file("a/d.rs", 1, 1)]);
    // a (last), a/b (not last), a/b/c.rs (last), a/d.rs (last)
    assert_eq!(texts(&render_row(&rows[0], false, false, 40))[0], "\u{f115} ");
    assert_eq!(texts(&render_row(&rows[1], false, false, 40))[0], "  \u{251c} ");
    assert_eq!(texts(&render_row(&rows[2], false, false, 40))[0], "  \u{2502} \u{2570} ");
    assert_eq!(texts(&render_row(&rows[3], false, false, 40))[0], "  \u{2570} ");
}

#[test]
fn a_selected_or_checked_row_is_styled_so() {
    let rows = rows();
    let spans = render_row(&rows[4], true, true, 40);
    assert_eq!(texts(&spans)[0], "\u{2611} ");
    assert_eq!(styles(&spans)[..3], [SpanStyle::Selected, SpanStyle::Raw, SpanStyle::Selected]);
    let spans = render_row(&rows[4], false, true, 40);
    assert_eq!(styles(&spans)[..3], [SpanStyle::Primary, SpanStyle::Raw, SpanStyle::FileChecked]);
    let spans = render_row(&rows[0], true, false, 40);
    assert_eq!(texts(&spans), vec!["\u{f115} ".to_string(), "src".to_string()]);
    assert_eq!(styles(&spans), vec![SpanStyle::Selected, SpanStyle::Selected]);
    let spans = render_row(&rows[0], false, false, 40);
    assert_eq!(styles(&spans), vec![SpanStyle::Directory, SpanStyle::Directory]);
}

#[test]
fn a_collapsed_directory_shows_its_totals() {
    let mut collapsed = PathSet::new();
    collapsed.insert("src".to_string());
    let rows = FileTreeBuilder::build_file_tree_with_collapsed(
        &[file("src/ui/list.rs", 3, 4), file("src/main.rs", 12, 0)],
        &collapsed,
    );
    let spans = render_row(&rows[0], false, false, 30);
    assert_eq!(
        texts(&spans),
        vec![
            "\u{f114} ".to_string(),
            "src".to_string(),
            " ".repeat(30 - 2 - 3 - 15),
            "2 ".to_string(),
            "files ".to_string(),
            "+15 ".to_string(),
            "-4".to_string(),
        ]
    );
    assert_eq!(styles(&spans)[3..], [SpanStyle::Raw, SpanStyle::Raw, SpanStyle::Added, SpanStyle::Removed]);
}

#[test]
fn a_long_name_is_cut_and_statistics_that_do_not_fit_are_left_out() {
    let rows =
        FileTreeBuilder::build_file_tree(&[file("a_very_long_file_name_indeed.rs", 1, 1)]);
    // Room for 20 columns: 2 for the checkbox, 2 for the icon, 10 kept for the statistics.
    let spans = render_row(&rows[0], false, false, 20);
    assert_eq!(line_text(&spans), "\u{2610} \u{e7a8} a_v...    +1 -1");
    assert_eq!(texts(&spans)[2], "a_v...");
    let spans = render_row(&rows[0], false, false, 21);
    assert_eq!(line_text(&spans), "\u{2610} \u{e7a8} a_ve...    +1 -1");
    // Too little room to cut: the name is written out.
    let spans = render_row(&rows[0], false, false, 17);
    assert_eq!(texts(&spans)[2], "a_very_long_file_name_indeed.rs");
    assert_eq!(spans.len(), 3);
    let spans = render_row(&rows[0], false, false, 0);
    assert_eq!(texts(&spans)[2], "a_very_long_file_name_indeed.rs");
}

#[test]
fn the_list_marks_the_selected_and_the_checked_rows() {
    let files = vec![file("b.rs", 1, 1), file("a.rs", 2, 2)];
    let mut app = App::new(Config::default(), files, OperationMode::GitCached, PathSet::new()).unwrap();
    app.select_next();
    app.toggle_file_checked();
    let list = render_file_list(&app, 44);
    assert_eq!(list.lines.len(), 2);
    assert!(!list.lines[0].selected);
    assert!(list.lines[1].selected);
    assert_eq!(line_text(&list.lines[0].spans), format!("\u{2610} \u{e7a8} a.rs{}+2 -2", " ".repeat(26)));
    assert_eq!(texts(&list.lines[1].spans)[0], "\u{2611} ");
    assert_eq!(list.lines[1].spans[2].style, SpanStyle::Selected);

    app.enter_search_mode();
    assert_eq!(render_file_list(&app, 44).title, " Search Mode - Type to filter (2 items)");
    app.add_search_char('b');
    let list = render_file_list(&app, 44);
    assert_eq!(list.title, " Search: 'b' (1 items)");
    assert_eq!(list.lines.len(), 1);
    assert!(list.lines[0].selected);
    assert_eq!(texts(&list.lines[0].spans)[0], "\u{2611} ");
}

#[test]
fn the_status_line_tells_the_selected_row_and_the_offsets() {
    let files = vec![file("src/main.rs", 12, 3)];
    let mut app = App::new(Config::default(), files, OperationMode::GitCached, PathSet::new()).unwrap();
    let spans = render_status_line(&app);
    assert_eq!(texts(&spans), vec![" : ", "src", " | Directory | ", "Scroll: 0,0"]);
    assert_eq!(styles(&spans), vec![SpanStyle::Raw, SpanStyle::Directory, SpanStyle::Raw, SpanStyle::Raw]);
    app.select_next();
    app.scroll_down(7);
    app.scroll_right(5);
    let spans = render_status_line(&app);
    assert_eq!(
        texts(&spans),
        vec![" \u{e7a8}: ", "src/main.rs", " | ", "+12", " ", "-3", " | ", "Scroll: 7,5"]
    );
    assert_eq!(
        styles(&spans),
        vec![
            SpanStyle::Raw,
            SpanStyle::File,
            SpanStyle::Raw,
            SpanStyle::Added,
            SpanStyle::Raw,
            SpanStyle::Removed,
            SpanStyle::Raw,
            SpanStyle::Raw,
        ]
    );
    let empty = App::new(Config::default(), vec![], OperationMode::GitCached, PathSet::new()).unwrap();
    assert_eq!(texts(&render_status_line(&empty)), vec![" No item selected"]);
}

#[test]
fn the_search_box_shows_a_hint_or_the_query() {
    let mut app = App::new(Config::default(), vec![file("a", 0, 0)], OperationMode::GitCached, PathSet::new()).unwrap();
    app.enter_search_mode();
    let search = render_search_box(&app);
    assert_eq!(search.text, "Filter files \u{f0b1b} ");
    assert_eq!(search.title, " Search (/: search, Enter: confirm, ESC: exit)");
    assert!(search.dimmed);
    assert!(search.focused);
    app.add_search_char('a');
    let search = render_search_box(&app);
    assert_eq!(search.text, "\u{f0b1b} a");
    assert!(!search.dimmed);
    app.confirm_search();
    let search = render_search_box(&app);
    assert_eq!(search.text, "\u{f0b1b} Filtered: 'a'");
    assert_eq!(search.title, " Search Results (/: new search, ESC: exit)");
    assert!(!search.focused);
    app.enter_search_mode();
    app.confirm_search();
    let search = render_search_box(&app);
    assert_eq!(search.text, "\u{f0b1b} All files");
    assert!(!search.dimmed);
}

#[test]
fn the_diff_pane_clamps_the_offsets_and_names_the_tool() {
    let mut config = Config::default();
    config.git.paging.pager = "delta --dark".to_string();
    let mut content = String::new();
    for i in 0..30 {
        content.push_str(&format!("line {}\n", i));
    }
    let mut f = file("a.rs", 1, 1);
    f.content = content;
    let mut app = App::new(config, vec![f], OperationMode::GitCached, PathSet::new()).unwrap();
    app.scroll_down(100);
    app.scroll_right(100);
    let (title, action) = render_diff_content(&mut app, 12, 6);
    assert_eq!(title, "Diff Content (using delta (pager)) - [h/l: scroll, j/k: files, g/G: jump]");
    // 30 lines in 10 rows, 7 columns in 4.
    assert_eq!((app.vertical_scroll(), app.horizontal_scroll()), (20, 3));
    assert!(matches!(action, Action::Reformat { .. }));
    assert_eq!(app.last_width(), 6);
    let (_, action) = render_diff_content(&mut app, 12, 8);
    assert!(matches!(action, Action::Nothing));
    app.clamp_scroll(40, 40);
    assert_eq!((app.vertical_scroll(), app.horizontal_scroll()), (0, 0));
    assert!(app.contains_ansi_codes("\u{1b}[0m"));
    assert!(!app.contains_ansi_codes("plain"));
}

#[test]
fn the_screen_is_divided_in_a_list_and_a_diff() {
    let mut app = App::new(Config::default(), vec![file("a", 0, 0)], OperationMode::GitCached, PathSet::new()).unwrap();
    assert_eq!(
        ui(&app),
        ScreenLayout { list_percent: 20, diff_percent: 80, search_rows: None, status_rows: 3 }
    );
    app.enter_search_mode();
    assert_eq!(
        ui(&app),
        ScreenLayout { list_percent: 20, diff_percent: 80, search_rows: Some(3), status_rows: 3 }
    );
}

#[test]
fn test_ui_layout() {
    let config = Config::default();
    let app = App::new(config, vec![], OperationMode::GitWorkingDirectory, PathSet::new()).unwrap();

    let layout = ui(&app);

    // A screen of 100 columns and 50 rows is divided without a rest.
    let (width, height): (u16, u16) = (100, 50);
    let list_width = width * layout.list_percent / 100;
    let diff_width = width * layout.diff_percent / 100;
    assert_eq!(list_width, 20);
    assert_eq!(diff_width, 80);
    assert!(list_width + diff_width == 100);
    assert_eq!(layout.search_rows, None);
    assert_eq!(layout.status_rows, 3);
    let diff_height = height - layout.status_rows;
    assert!(layout.status_rows + diff_height == 50);
}
