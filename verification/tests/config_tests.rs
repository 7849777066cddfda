use ftdv::config::{
    default_color_arg, default_display_name, Config, DiffCommand, DiffCommandType, GitPagingConfig,
};
use ftdv::diff::DiffExecutor;
use ftdv::theme::{ColorScheme, Theme, ThemeColor};

#[test]
fn test_config_default() {
    let config = Config::default();
    assert!(config.diff_command.is_none());
    assert_eq!(config.git.paging.color_arg, "always");
    assert!(!config.git.paging.has_pager());
    assert!(!config.git.paging.has_external_diff_command());
}

#[test]
fn test_diff_command_type_precedence() {
    let mut config = Config::default();

    // Test external diff takes precedence over pager
    config.git.paging.pager = "delta".to_string();
    config.git.paging.external_diff_command = "difft".to_string();

    match config.get_diff_command_type() {
        DiffCommandType::External(cmd) => assert_eq!(cmd, "difft"),
        _ => panic!("Expected external diff command"),
    }

    // Test pager when no external diff
    config.git.paging.external_diff_command = String::new();
    match config.get_diff_command_type() {
        DiffCommandType::Pager(cmd) => assert_eq!(cmd, "delta"),
        _ => panic!("Expected pager command"),
    }
}

#[test]
fn test_diff_executor_new() {
    let cmd = DiffCommand::default();
    let executor = DiffExecutor::new(cmd);
    assert_eq!(executor.command.command, "diff");
}

#[test]
fn defaults_of_the_older_form() {
    let cmd = DiffCommand::default();
    assert_eq!(cmd.command, "diff");
    assert_eq!(cmd.args, vec!["-u".to_string()]);
    assert_eq!(cmd.display_name, "git diff");
    assert_eq!(default_display_name(), "git diff");
    assert_eq!(default_color_arg(), "always");
    let copy = cmd.clone();
    assert_eq!(copy.args, cmd.args);
}

#[test]
fn a_command_of_whitespace_is_no_command() {
    let mut paging = GitPagingConfig::default();
    assert!(!paging.use_config);
    paging.pager = "  \t ".to_string();
    paging.external_diff_command = "\n".to_string();
    assert!(!paging.has_pager());
    assert!(!paging.has_external_diff_command());
    assert!(matches!(paging.get_effective_command(), DiffCommandType::GitDefault));
    paging.pager = " delta ".to_string();
    assert!(paging.has_pager());
    match paging.get_effective_command() {
        DiffCommandType::Pager(cmd) => assert_eq!(cmd, " delta "),
        _ => panic!("Expected pager command"),
    }
    paging.external_diff_command = "difft".to_string();
    assert!(paging.has_external_diff_command());
    match paging.clone().get_effective_command() {
        DiffCommandType::External(cmd) => assert_eq!(cmd, "difft"),
        _ => panic!("Expected external diff command"),
    }
}

#[test]
fn the_older_form_is_a_pager_unless_it_is_plain_diff() {
    let mut config = Config::default();
    assert!(matches!(config.get_diff_command_type(), DiffCommandType::GitDefault));
    assert_eq!(config.get_diff_display_name(), "git diff");

    config.diff_command = Some(DiffCommand::default());
    assert!(matches!(config.get_diff_command_type(), DiffCommandType::GitDefault));

    config.diff_command = Some(DiffCommand {
        command: "delta".to_string(),
        args: vec!["--dark".to_string(), "--side-by-side".to_string()],
        display_name: "delta".to_string(),
    });
    match config.get_diff_command_type() {
        DiffCommandType::Pager(cmd) => assert_eq!(cmd, "delta --dark --side-by-side"),
        _ => panic!("Expected pager command"),
    }
    assert_eq!(config.get_diff_display_name(), "delta (pager)");

    config.diff_command =
        Some(DiffCommand { command: "bat".to_string(), args: vec![], display_name: String::new() });
    match config.get_diff_command_type() {
        DiffCommandType::Pager(cmd) => assert_eq!(cmd, "bat"),
        _ => panic!("Expected pager command"),
    }

    config.git.paging.external_diff_command = "difft --color=always".to_string();
    assert_eq!(config.get_diff_display_name(), "difft (external)");
    let copy = config.clone();
    assert_eq!(copy.get_diff_display_name(), "difft (external)");
}

#[test]
fn the_dark_theme_is_the_default() {
    let theme = Theme::default();
    assert_eq!(theme.name, "dark");
    assert_eq!(theme.colors, ColorScheme::dark_theme());
    assert_eq!(theme.colors.tree_selected_bg, ThemeColor::Rgb(50, 50, 70));
    assert_eq!(theme.colors.background, ThemeColor::Black);
    assert_eq!(ColorScheme::default(), ColorScheme::dark_theme());
    assert_eq!(ThemeColor::default(), ThemeColor::White);
    assert_eq!(Config::default().theme.colors, ColorScheme::dark_theme());
}

#[test]
fn colors_have_names() {
    assert_eq!(ThemeColor::Reset.name(), "reset");
    assert_eq!(ThemeColor::DarkGray.name(), "dark_gray");
    assert_eq!(ThemeColor::LightMagenta.name(), "light_magenta");
    assert_eq!(ThemeColor::Indexed(0).name(), "color0");
    assert_eq!(ThemeColor::Indexed(207).name(), "color207");
    assert_eq!(ThemeColor::Rgb(50, 50, 70).name(), "#323246");
    assert_eq!(ThemeColor::Rgb(0, 255, 10).name(), "#00ff0a");
}

#[test]
fn names_stand_for_colors() {
    assert_eq!(ThemeColor::from_name("red"), Some(ThemeColor::Red));
    assert_eq!(ThemeColor::from_name("Light_Blue"), Some(ThemeColor::LightBlue));
    assert_eq!(ThemeColor::from_name("grey"), Some(ThemeColor::Gray));
    assert_eq!(ThemeColor::from_name("GRAY"), Some(ThemeColor::Gray));
    assert_eq!(ThemeColor::from_name("dark_grey"), Some(ThemeColor::DarkGray));
    assert_eq!(ThemeColor::from_name("color12"), Some(ThemeColor::Indexed(12)));
    assert_eq!(ThemeColor::from_name("color+7"), Some(ThemeColor::Indexed(7)));
    assert_eq!(ThemeColor::from_name("color007"), Some(ThemeColor::Indexed(7)));
    assert_eq!(ThemeColor::from_name("color255"), Some(ThemeColor::Indexed(255)));
    assert_eq!(ThemeColor::from_name("color256"), None);
    assert_eq!(ThemeColor::from_name("color"), None);
    assert_eq!(ThemeColor::from_name("color-1"), None);
    assert_eq!(ThemeColor::from_name("color1x"), None);
    assert_eq!(ThemeColor::from_name("#323246"), Some(ThemeColor::Rgb(50, 50, 70)));
    assert_eq!(ThemeColor::from_name("#00FF0A"), Some(ThemeColor::Rgb(0, 255, 10)));
    assert_eq!(ThemeColor::from_name("#00ff0"), None);
    assert_eq!(ThemeColor::from_name("#00ff0g"), None);
    assert_eq!(ThemeColor::from_name("#00ff0a0"), None);
    assert_eq!(ThemeColor::from_name("purple"), None);
    assert_eq!(ThemeColor::from_name(""), None);
}

#[test]
fn every_color_is_read_back_from_its_name() {
    let colors = [
        ThemeColor::Reset,
        ThemeColor::Black,
        ThemeColor::Red,
        ThemeColor::Green,
        ThemeColor::Yellow,
        ThemeColor::Blue,
        ThemeColor::Magenta,
        ThemeColor::Cyan,
        ThemeColor::Gray,
        ThemeColor::DarkGray,
        ThemeColor::LightRed,
        ThemeColor::LightGreen,
        ThemeColor::LightYellow,
        ThemeColor::LightBlue,
        ThemeColor::LightMagenta,
        ThemeColor::LightCyan,
        ThemeColor::White,
        ThemeColor::Indexed(99),
        ThemeColor::Rgb(1, 2, 3),
    ];
    for color in colors {
        assert_eq!(ThemeColor::from_name(&color.name()), Some(color));
    }
}
