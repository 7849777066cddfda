use ftdv::cli::OperationMode;
use ftdv::config::{Config, DiffCommandType};
use ftdv::invoker::{
    apply_template_substitutions, calculate_template_values, plan_external_diff, plan_pager,
    plan_pager_for_width, plan_tool_for_area, plan_tool_for_width, resolve_template_variables,
    resolve_template_variables_with_area_width, should_refresh_diff_width, Invocation,
    TemplateValues, ToolPlan,
};
use ftdv::navigation::{Action, App};
use ftdv::parser::FileDiff;
use ftdv::pathset::PathSet;

fn strings(items: &[&str]) -> Vec<String> {
    items.iter().map(|s| s.to_string()).collect()
}

fn env(items: &[(&str, &str)]) -> Vec<(String, String)> {
    items.iter().map(|(k, v)| (k.to_string(), v.to_string())).collect()
}

fn run(plan: ToolPlan) -> Invocation {
    match plan {
        ToolPlan::Run(invocation) => invocation,
        other => panic!("Expected a program to run, got {:?}", other),
    }
}

fn failure(plan: ToolPlan) -> String {
    match plan {
        ToolPlan::Fail(why) => why,
        other => panic!("Expected a failure, got {:?}", other),
    }
}

#[test]
fn template_values_are_computed_from_the_widths() {
    assert_eq!(
        calculate_template_values(80, 100),
        TemplateValues { width: 100, column_width: 44, diff_area_width: 78, diff_column_width: 33 }
    );
    assert_eq!(
        calculate_template_values(81, 101),
        TemplateValues { width: 101, column_width: 44, diff_area_width: 79, diff_column_width: 33 }
    );
}

#[test]
fn template_values_do_not_go_below_zero() {
    assert_eq!(
        calculate_template_values(0, 0),
        TemplateValues { width: 0, column_width: 0, diff_area_width: 0, diff_column_width: 0 }
    );
    assert_eq!(
        calculate_template_values(1, 11),
        TemplateValues { width: 11, column_width: 0, diff_area_width: 0, diff_column_width: 0 }
    );
    assert_eq!(
        calculate_template_values(16, 14),
        TemplateValues { width: 14, column_width: 1, diff_area_width: 14, diff_column_width: 1 }
    );
    assert_eq!(
        calculate_template_values(u16::MAX, u16::MAX),
        TemplateValues {
            width: 65535,
            column_width: 32761,
            diff_area_width: 65533,
            diff_column_width: 32760
        }
    );
}

#[test]
fn placeholders_are_replaced_in_both_spellings() {
    let values =
        TemplateValues { width: 100, column_width: 44, diff_area_width: 78, diff_column_width: 33 };
    assert_eq!(
        apply_template_substitutions("delta -w {{width}} {{.width}}", &values),
        "delta -w 100 100"
    );
    assert_eq!(
        apply_template_substitutions(
            "x {{columnWidth}}/{{.columnWidth}} {{diffAreaWidth}}/{{.diffAreaWidth}} {{diffColumnWidth}}/{{.diffColumnWidth}}",
            &values
        ),
        "x 44/44 78/78 33/33"
    );
    assert_eq!(apply_template_substitutions("no placeholders", &values), "no placeholders");
    assert_eq!(apply_template_substitutions("{{width}}{{width}}", &values), "100100");
    assert_eq!(apply_template_substitutions("{{Width}} {{ width }} {width}", &values), "{{Width}} {{ width }} {width}");
    assert_eq!(apply_template_substitutions("", &values), "");
    assert_eq!(apply_template_substitutions("{{{width}}}", &values), "{100}");
}

#[test]
fn placeholders_are_resolved_from_the_widths() {
    assert_eq!(
        resolve_template_variables_with_area_width(
            "t --width={{width}} --cols={{columnWidth}} --area={{diffAreaWidth}} --half={{diffColumnWidth}}",
            80,
            100
        ),
        "t --width=100 --cols=44 --area=78 --half=33"
    );
    // Only the terminal is known: the pane is taken as four fifths of it.
    assert_eq!(
        resolve_template_variables("t {{width}} {{columnWidth}} {{diffAreaWidth}} {{diffColumnWidth}}", 100),
        "t 100 44 76 32"
    );
    // A product that does not fit in 16 bits is computed all the same.
    assert_eq!(resolve_template_variables("{{width}} {{diffAreaWidth}}", 1000), "1000 796");
}

#[test]
fn a_pager_reads_the_diff_from_its_input() {
    let invocation = run(plan_pager("delta  --width={{width}}\t--side-by-side", 80, 120));
    assert_eq!(invocation.program, "delta");
    assert_eq!(invocation.args, strings(&["--width=120", "--side-by-side"]));
    assert_eq!(
        invocation.env,
        env(&[("TERM", "xterm-256color"), ("COLUMNS", "120"), ("LINES", "50")])
    );
    assert!(invocation.feeds_input);

    let invocation = run(plan_pager("bat", 10, 20));
    assert_eq!(invocation.program, "bat");
    assert!(invocation.args.is_empty());
}

#[test]
fn an_empty_command_cannot_be_run() {
    assert_eq!(failure(plan_pager("", 80, 120)), "Empty command");
    assert_eq!(failure(plan_pager("  \t ", 80, 120)), "Empty command");
    assert_eq!(failure(plan_pager_for_width(" ", None)), "Empty command");
}

#[test]
fn a_pager_without_a_width_is_run_as_it_is() {
    let invocation = run(plan_pager_for_width("delta --width={{width}}", None));
    assert_eq!(invocation.args, strings(&["--width={{width}}"]));
    assert_eq!(invocation.env, env(&[("TERM", "xterm-256color"), ("LINES", "50")]));

    let invocation = run(plan_pager_for_width("delta --width={{width}} {{diffAreaWidth}}", Some(102)));
    // The content is two columns less than the width; the pane four fifths of that, less its border.
    assert_eq!(invocation.args, strings(&["--width=100", "76"]));
    assert_eq!(
        invocation.env,
        env(&[("TERM", "xterm-256color"), ("LINES", "50"), ("COLUMNS", "102")])
    );
}

#[test]
fn an_external_diff_is_called_by_the_comparison_tool() {
    let path = "src/a.rs".to_string();
    let invocation = run(plan_external_diff(
        "difft --width {{width}}",
        78,
        100,
        &OperationMode::GitWorkingDirectory,
        Some(&path),
    ));
    assert_eq!(invocation.program, "git");
    assert_eq!(
        invocation.args,
        strings(&[
            "-c",
            "diff.external=difft --width 100",
            "-c",
            "diff.noprefix=false",
            "diff",
            "--ext-diff",
            "--color=always",
            "--",
            "src/a.rs"
        ])
    );
    assert_eq!(
        invocation.env,
        env(&[("TERM", "xterm-256color"), ("COLUMNS", "100"), ("LINES", "50")])
    );
    assert!(!invocation.feeds_input);

    let tail = |mode: &OperationMode| run(plan_external_diff("d", 78, 100, mode, Some(&path))).args[7..].to_vec();
    assert_eq!(tail(&OperationMode::GitCached), strings(&["--cached", "--", "src/a.rs"]));
    assert_eq!(
        tail(&OperationMode::GitDiff { target: "main".to_string() }),
        strings(&["main", "--", "src/a.rs"])
    );
    assert_eq!(
        tail(&OperationMode::Compare { target1: "a".to_string(), target2: "b".to_string() }),
        strings(&["a", "b", "--", "src/a.rs"])
    );
}

#[test]
fn an_external_diff_needs_a_file_and_a_mode_that_allows_it() {
    let path = "src/a.rs".to_string();
    assert_eq!(
        failure(plan_external_diff("d", 78, 100, &OperationMode::GitCached, None)),
        "No file selected for external diff"
    );
    assert_eq!(
        failure(plan_external_diff("d", 78, 100, &OperationMode::GitStatus, None)),
        "No file selected for external diff"
    );
    assert_eq!(
        failure(plan_external_diff("d", 78, 100, &OperationMode::GitStatus, Some(&path))),
        "External diff not supported for this operation mode"
    );
    assert_eq!(
        failure(plan_external_diff(
            "d",
            78,
            100,
            &OperationMode::Invalid { reason: "r".to_string() },
            Some(&path)
        )),
        "External diff not supported for this operation mode"
    );
}

#[test]
fn the_kind_of_command_decides_the_plan() {
    let mode = OperationMode::GitCached;
    let path = "f".to_string();
    assert!(matches!(
        plan_tool_for_area(&DiffCommandType::GitDefault, 80, 100, &mode, Some(&path)),
        ToolPlan::Identity
    ));
    assert!(matches!(
        plan_tool_for_width(&DiffCommandType::GitDefault, Some(80), None, &mode, None),
        ToolPlan::Identity
    ));
    let pager = DiffCommandType::Pager("delta {{diffAreaWidth}}".to_string());
    assert_eq!(run(plan_tool_for_area(&pager, 80, 100, &mode, None)).args, strings(&["78"]));
    assert_eq!(run(plan_tool_for_width(&pager, Some(102), Some(7), &mode, None)).args, strings(&["76"]));
    let external = DiffCommandType::External("difft {{width}} {{diffAreaWidth}}".to_string());
    assert_eq!(
        run(plan_tool_for_area(&external, 60, 100, &mode, Some(&path))).args[1],
        "diff.external=difft 100 58"
    );
    // One width: it is the terminal, and the pane is two columns less.
    assert_eq!(
        run(plan_tool_for_width(&external, Some(90), Some(200), &mode, Some(&path))).args[1],
        "diff.external=difft 90 86"
    );
    assert_eq!(
        run(plan_tool_for_width(&external, None, Some(200), &mode, Some(&path))).args[1],
        "diff.external=difft 200 196"
    );
    assert_eq!(
        run(plan_tool_for_width(&external, None, None, &mode, Some(&path))).args[1],
        "diff.external=difft 80 76"
    );
}

#[test]
fn the_diff_is_formatted_anew_when_the_width_changes_by_more_than_five() {
    assert!(should_refresh_diff_width(0, 80));
    assert!(should_refresh_diff_width(0, 0));
    assert!(!should_refresh_diff_width(80, 80));
    assert!(!should_refresh_diff_width(80, 85));
    assert!(!should_refresh_diff_width(80, 75));
    assert!(should_refresh_diff_width(80, 86));
    assert!(should_refresh_diff_width(80, 74));
    assert!(should_refresh_diff_width(1, u16::MAX));
    assert!(should_refresh_diff_width(u16::MAX, 1));
}

fn file(path: &str) -> FileDiff {
    FileDiff {
        filename: path.to_string(),
        old_path: None,
        new_path: None,
        content: format!("content of {}", path),
        added_lines: 1,
        removed_lines: 1,
        diff_key: None,
    }
}

#[test]
fn the_viewer_plans_the_tool_for_the_selected_file() {
    let mut config = Config::default();
    config.git.paging.external_diff_command = "difft".to_string();
    let mut app =
        App::new(config, vec![file("src/a.rs")], OperationMode::GitCached, PathSet::new()).unwrap();
    // A directory is selected.
    assert_eq!(
        failure(app.execute_external_diff_tool_with_area_width(80, 100)),
        "No file selected for external diff"
    );
    app.select_next();
    let invocation = run(app.execute_external_diff_tool_with_area_width(80, 100));
    assert_eq!(invocation.args[7..].to_vec(), strings(&["--cached", "--", "src/a.rs"]));
    let invocation = run(app.execute_external_diff_tool_with_width(None, None));
    assert_eq!(invocation.env[1], ("COLUMNS".to_string(), "80".to_string()));

    let plain =
        App::new(Config::default(), vec![file("a")], OperationMode::GitCached, PathSet::new()).unwrap();
    assert!(matches!(plain.execute_external_diff_tool_with_width(Some(80), None), ToolPlan::Identity));
}

#[test]
fn a_new_width_asks_for_formatting_anew() {
    let mut config = Config::default();
    config.git.paging.pager = "delta".to_string();
    let mut app =
        App::new(config, vec![file("a.rs"), file("b.rs")], OperationMode::GitCached, PathSet::new()).unwrap();
    match app.refresh_diff_with_width(80) {
        Action::Reformat { path, fetch } => {
            assert_eq!(path, "a.rs");
            assert!(fetch);
        }
        other => panic!("unexpected {:?}", other),
    }
    assert_eq!(app.last_width(), 80);
    assert!(matches!(app.refresh_diff_with_width(83), Action::Nothing));
    assert_eq!(app.last_width(), 80);
    assert!(matches!(app.refresh_diff_with_width(86), Action::Reformat { .. }));
    assert_eq!(app.last_width(), 86);

    // Without a tool the width is not even remembered.
    let mut plain =
        App::new(Config::default(), vec![file("a.rs")], OperationMode::GitCached, PathSet::new()).unwrap();
    assert!(matches!(plain.refresh_diff_with_width(80), Action::Nothing));
    assert_eq!(plain.last_width(), 0);
}
