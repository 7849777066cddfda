use ftdv::cli::OperationMode;
use ftdv::git::{
    changed_file_names, interpret_run, CompareRequest, GitExecutor, GitRequest, Ran, Wanted,
};
use ftdv::parser::DiffFileKey;
use ftdv::persistence::PersistenceManager;

fn strings(items: &[&str]) -> Vec<String> {
    items.iter().map(|s| s.to_string()).collect()
}

fn git_args(request: GitRequest) -> Vec<String> {
    match request {
        GitRequest::Git(args) => args,
        other => panic!("Expected a call of the comparison tool, got {:?}", other),
    }
}

#[test]
fn test_git_executor_creation() {
    let _executor = GitExecutor::new();
    // Just test that we can create it without panicking
}

#[test]
fn diff_arguments_by_mode() {
    let git = GitExecutor::new();
    let diff = |mode: &OperationMode| git_args(git.request(mode, Wanted::Diff, ""));
    assert_eq!(diff(&OperationMode::GitWorkingDirectory), strings(&["diff"]));
    assert_eq!(diff(&OperationMode::GitStatus), strings(&["diff"]));
    assert_eq!(diff(&OperationMode::GitCached), strings(&["diff", "--cached"]));
    assert_eq!(
        diff(&OperationMode::GitDiff { target: "main".to_string() }),
        strings(&["diff", "main"])
    );
}

#[test]
fn name_arguments_by_mode() {
    let git = GitExecutor::new();
    let names = |mode: &OperationMode| git_args(git.request(mode, Wanted::Names, "ignored"));
    assert_eq!(names(&OperationMode::GitWorkingDirectory), strings(&["diff", "--name-only"]));
    assert_eq!(names(&OperationMode::GitCached), strings(&["diff", "--cached", "--name-only"]));
    assert_eq!(
        names(&OperationMode::GitDiff { target: "main".to_string() }),
        strings(&["diff", "--name-only", "main"])
    );
}

#[test]
fn file_diff_arguments_by_mode() {
    let git = GitExecutor::new();
    let file = |mode: &OperationMode| git_args(git.request(mode, Wanted::FileDiff, "src/a.rs"));
    assert_eq!(file(&OperationMode::GitStatus), strings(&["diff", "--", "src/a.rs"]));
    assert_eq!(file(&OperationMode::GitCached), strings(&["diff", "--cached", "--", "src/a.rs"]));
    assert_eq!(
        file(&OperationMode::GitDiff { target: "main".to_string() }),
        strings(&["diff", "main", "--", "src/a.rs"])
    );
}

#[test]
fn modes_that_cannot_be_served() {
    let git = GitExecutor::new();
    match git.request(&OperationMode::Invalid { reason: "bad".to_string() }, Wanted::Diff, "") {
        GitRequest::Unavailable(why) => assert_eq!(why, "Invalid operation mode: bad"),
        other => panic!("unexpected {:?}", other),
    }
    let completions = OperationMode::Completions { shell: clap_complete::Shell::Bash };
    match git.request(&completions, Wanted::Diff, "") {
        GitRequest::Unavailable(why) => assert_eq!(why, "Completions mode should not call get_diff"),
        other => panic!("unexpected {:?}", other),
    }
    match git.request(&completions, Wanted::Names, "") {
        GitRequest::Unavailable(why) => {
            assert_eq!(why, "Completions mode should not call get_changed_files")
        }
        other => panic!("unexpected {:?}", other),
    }
    match git.request(&completions, Wanted::FileDiff, "x") {
        GitRequest::Unavailable(why) => {
            assert_eq!(why, "Completions mode should not call get_file_diff")
        }
        other => panic!("unexpected {:?}", other),
    }
}

#[test]
fn two_targets_are_compared_as_refs_or_as_files() {
    let git = GitExecutor::new();
    let mode = OperationMode::Compare { target1: "a".to_string(), target2: "b".to_string() };
    match git.request(&mode, Wanted::Diff, "") {
        GitRequest::Compare { target1, target2 } => {
            assert_eq!(target1, "a");
            assert_eq!(target2, "b");
        }
        other => panic!("unexpected {:?}", other),
    }
    match git.compare_request("a", "b", true, Wanted::Diff, "") {
        CompareRequest::Git(args) => assert_eq!(args, strings(&["diff", "a..b"])),
        other => panic!("unexpected {:?}", other),
    }
    match git.compare_request("a", "b", true, Wanted::Names, "") {
        CompareRequest::Git(args) => assert_eq!(args, strings(&["diff", "--name-only", "a..b"])),
        other => panic!("unexpected {:?}", other),
    }
    match git.compare_request("a", "b", true, Wanted::FileDiff, "f") {
        CompareRequest::Git(args) => assert_eq!(args, strings(&["diff", "a..b", "--", "f"])),
        other => panic!("unexpected {:?}", other),
    }
    match git.compare_request("a", "b", false, Wanted::Diff, "") {
        CompareRequest::PlainDiff(args) => assert_eq!(args, strings(&["-u", "a", "b"])),
        other => panic!("unexpected {:?}", other),
    }
    match git.compare_request("a", "b", false, Wanted::FileDiff, "f") {
        CompareRequest::PlainDiff(args) => assert_eq!(args, strings(&["-u", "a", "b"])),
        other => panic!("unexpected {:?}", other),
    }
    match git.compare_request("a", "b", false, Wanted::Names, "") {
        CompareRequest::Names(names) => assert_eq!(names, strings(&["a", "b"])),
        other => panic!("unexpected {:?}", other),
    }
}

#[test]
fn plain_diff_fails_on_status_two_only() {
    let out = Some("text".to_string());
    assert_eq!(interpret_run(Ran::PlainDiff, false, Some(1), out.clone(), "e"), Ok("text".to_string()));
    assert_eq!(interpret_run(Ran::PlainDiff, true, Some(0), out.clone(), "e"), Ok("text".to_string()));
    assert_eq!(interpret_run(Ran::PlainDiff, false, None, out.clone(), "e"), Ok("text".to_string()));
    assert_eq!(
        interpret_run(Ran::PlainDiff, false, Some(2), out.clone(), "no such file"),
        Err("Diff command failed: no such file".to_string())
    );
    assert_eq!(
        interpret_run(Ran::PlainDiff, false, Some(1), None, ""),
        Err("Diff output is not valid UTF-8".to_string())
    );
}

#[test]
fn other_programs_fail_on_any_failure() {
    let out = Some("text".to_string());
    assert_eq!(interpret_run(Ran::GitDiff, true, Some(0), out.clone(), ""), Ok("text".to_string()));
    assert_eq!(
        interpret_run(Ran::GitDiff, false, Some(1), out.clone(), "bad"),
        Err("Git diff failed: bad".to_string())
    );
    assert_eq!(
        interpret_run(Ran::GitNames, false, Some(128), out.clone(), "bad"),
        Err("Git diff --name-only failed: bad".to_string())
    );
    assert_eq!(
        interpret_run(Ran::Pager, false, Some(2), out.clone(), "bad"),
        Err("Command failed: bad".to_string())
    );
    assert_eq!(
        interpret_run(Ran::ExternalDiff, false, None, out.clone(), "bad"),
        Err("Git external diff failed: bad".to_string())
    );
    assert_eq!(
        interpret_run(Ran::GitDiff, true, Some(0), None, ""),
        Err("Git diff output is not valid UTF-8".to_string())
    );
    assert_eq!(
        interpret_run(Ran::GitNames, true, Some(0), None, ""),
        Err("Git output is not valid UTF-8".to_string())
    );
    assert_eq!(
        interpret_run(Ran::Pager, true, Some(0), None, ""),
        Err("Command output is not valid UTF-8".to_string())
    );
    assert_eq!(
        interpret_run(Ran::ExternalDiff, true, Some(0), None, ""),
        Err("Git external diff output is not valid UTF-8".to_string())
    );
    // A pager that exits with status 2 after success was reported: only the report counts.
    assert_eq!(interpret_run(Ran::Pager, true, Some(2), out, ""), Ok("text".to_string()));
}

#[test]
fn names_are_read_line_by_line() {
    assert_eq!(changed_file_names("a.rs\n\nsrc/b.rs\r\n\r\nc"), strings(&["a.rs", "src/b.rs", "c"]));
    assert!(changed_file_names("").is_empty());
    assert!(changed_file_names("\n\n").is_empty());
}

#[test]
fn test_file_path_safety() {
    let manager = PersistenceManager::with_base_dir("/tmp/checks".to_string());

    let key = DiffFileKey {
        from_hash: "abc123".to_string(),
        to_hash: "def456".to_string(),
        file_path: "deep/path/with/slashes.rs".to_string(),
    };

    let file_path = manager.get_check_file_path(&key);
    let filename =
        std::path::Path::new(&file_path).file_name().unwrap().to_str().unwrap().to_string();

    // Should not contain slashes in filename
    assert!(!filename.contains('/'));
    assert!(filename.contains("deep_path_with_slashes.rs"));
    assert_eq!(filename, "abc123_def456_deep_path_with_slashes.rs.json");
    assert_eq!(file_path, "/tmp/checks/abc123_def456_deep_path_with_slashes.rs.json");
    assert_eq!(PersistenceManager::get_check_file_name(&key), filename);
}

#[test]
fn backslashes_are_replaced_too() {
    let key = DiffFileKey {
        from_hash: "a".to_string(),
        to_hash: "b".to_string(),
        file_path: "x\\y/z".to_string(),
    };
    assert_eq!(PersistenceManager::get_check_file_name(&key), "a_b_x_y_z.json");
}

#[test]
fn check_states_are_stored_as_lists() {
    let key = |path: &str| DiffFileKey {
        from_hash: "a".to_string(),
        to_hash: "b".to_string(),
        file_path: path.to_string(),
    };
    assert_eq!(PersistenceManager::check_state_for(&key("src/main.rs"), true), strings(&["src/main.rs"]));
    assert!(PersistenceManager::check_state_for(&key("src/main.rs"), false).is_empty());

    let keys = vec![key("one"), key("two"), key("three"), key("four")];
    let stored = vec![
        Some(strings(&["one"])),
        Some(strings(&[])),
        None,
        Some(strings(&["other", "four"])),
    ];
    let checked = PersistenceManager::load_checked_files(&keys, &stored);
    assert_eq!(checked.to_vec(), strings(&["one", "four"]));
    assert!(checked.contains(&"one".to_string()));
    assert!(!checked.contains(&"two".to_string()));
    assert!(!checked.contains(&"other".to_string()));

    let checked = PersistenceManager::load_checked_files(&keys, &vec![Some(strings(&["one"]))]);
    assert_eq!(checked.to_vec(), strings(&["one"]));
}

#[test]
fn states_older_than_the_limit_are_expired() {
    let day: u128 = 86_400_000_000_000;
    assert!(PersistenceManager::is_expired(0, 30 * day + 1, 30));
    assert!(!PersistenceManager::is_expired(0, 30 * day, 30));
    assert!(!PersistenceManager::is_expired(5 * day, 30 * day, 30));
    assert!(PersistenceManager::is_expired(5, 6, 0));
    assert!(!PersistenceManager::is_expired(6, 6, 0));
    assert!(!PersistenceManager::is_expired(u128::MAX, u128::MAX, 1));
    assert!(!PersistenceManager::is_expired(0, u128::MAX >> 20, u64::MAX));
    assert!(PersistenceManager::is_expired(0, u128::MAX, u64::MAX));
}
