use ftdv::cli::{Cli, Commands, OperationMode};

fn bare(targets: Vec<String>, cached: bool) -> Cli {
    Cli { command: None, targets, cached, worktree: false, config: None, verbose: false }
}

#[test]
fn test_no_args_gives_working_directory() {
    let cli = Cli {
        command: None,
        targets: vec![],
        cached: false,
        worktree: false,
        config: None,
        verbose: false,
    };

    match cli.get_operation_mode() {
        OperationMode::GitWorkingDirectory => (),
        _ => panic!("Expected GitWorkingDirectory mode"),
    }
}

#[test]
fn test_cached_flag() {
    let cli = Cli {
        command: None,
        targets: vec![],
        cached: true,
        worktree: false,
        config: None,
        verbose: false,
    };

    match cli.get_operation_mode() {
        OperationMode::GitCached => (),
        _ => panic!("Expected GitCached mode"),
    }
}

#[test]
fn test_single_target() {
    let cli = Cli {
        command: None,
        targets: vec!["branch1".to_string()],
        cached: false,
        worktree: false,
        config: None,
        verbose: false,
    };

    match cli.get_operation_mode() {
        OperationMode::GitDiff { target } => assert_eq!(target, "branch1"),
        _ => panic!("Expected GitDiff mode"),
    }
}

#[test]
fn test_two_targets() {
    let cli = Cli {
        command: None,
        targets: vec!["branch1".to_string(), "branch2".to_string()],
        cached: false,
        worktree: false,
        config: None,
        verbose: false,
    };

    match cli.get_operation_mode() {
        OperationMode::Compare { target1, target2 } => {
            assert_eq!(target1, "branch1");
            assert_eq!(target2, "branch2");
        }
        _ => panic!("Expected Compare mode"),
    }
}

#[test]
fn three_targets_are_too_many() {
    let cli = bare(vec!["a".to_string(), "b".to_string(), "c".to_string()], false);
    match cli.get_operation_mode() {
        OperationMode::Invalid { reason } => assert_eq!(reason, "Too many arguments provided"),
        _ => panic!("Expected Invalid mode"),
    }
}

#[test]
fn cached_flag_goes_before_targets() {
    let cli = bare(vec!["a".to_string(), "b".to_string(), "c".to_string()], true);
    assert!(matches!(cli.get_operation_mode(), OperationMode::GitCached));
}

#[test]
fn a_subcommand_decides_alone() {
    let mut cli = bare(vec!["x".to_string()], true);
    cli.command = Some(Commands::Status);
    assert!(matches!(cli.get_operation_mode(), OperationMode::GitStatus));

    cli.command = Some(Commands::Diff { target1: "a".to_string(), target2: None, cached: false });
    match cli.get_operation_mode() {
        OperationMode::GitDiff { target } => assert_eq!(target, "a"),
        _ => panic!("Expected GitDiff mode"),
    }

    cli.command = Some(Commands::Diff {
        target1: "a".to_string(),
        target2: Some("b".to_string()),
        cached: false,
    });
    match cli.get_operation_mode() {
        OperationMode::Compare { target1, target2 } => {
            assert_eq!(target1, "a");
            assert_eq!(target2, "b");
        }
        _ => panic!("Expected Compare mode"),
    }

    cli.command = Some(Commands::Diff {
        target1: "a".to_string(),
        target2: Some("b".to_string()),
        cached: true,
    });
    assert!(matches!(cli.get_operation_mode(), OperationMode::GitCached));

    cli.command = Some(Commands::Completions { shell: clap_complete::Shell::Zsh });
    match cli.get_operation_mode() {
        OperationMode::Completions { shell } => assert_eq!(shell, clap_complete::Shell::Zsh),
        _ => panic!("Expected Completions mode"),
    }
}

#[test]
fn modes_that_read_a_repository() {
    assert!(OperationMode::GitWorkingDirectory.requires_git_repo());
    assert!(OperationMode::GitCached.requires_git_repo());
    assert!(OperationMode::GitStatus.requires_git_repo());
    assert!(OperationMode::GitDiff { target: "x".to_string() }.requires_git_repo());
    assert!(!OperationMode::Compare { target1: "a".to_string(), target2: "b".to_string() }
        .requires_git_repo());
    assert!(!OperationMode::Invalid { reason: "r".to_string() }.requires_git_repo());
    assert!(!OperationMode::Completions { shell: clap_complete::Shell::Bash }.requires_git_repo());
}

#[test]
fn modes_are_described() {
    assert_eq!(OperationMode::GitWorkingDirectory.description(), "Working directory changes");
    assert_eq!(OperationMode::GitCached.description(), "Staged changes");
    assert_eq!(OperationMode::GitStatus.description(), "Git status with diffs");
    assert_eq!(
        OperationMode::GitDiff { target: "main".to_string() }.description(),
        "Changes from main"
    );
    assert_eq!(
        OperationMode::Compare { target1: "a".to_string(), target2: "b".to_string() }
            .description(),
        "Comparing a with b"
    );
    assert_eq!(OperationMode::Invalid { reason: "why".to_string() }.description(), "Invalid: why");
    assert_eq!(
        OperationMode::Completions { shell: clap_complete::Shell::Fish }.description(),
        "Generating completions"
    );
    let mode = OperationMode::GitDiff { target: "main".to_string() };
    assert_eq!(mode.clone().description(), mode.description());
}
