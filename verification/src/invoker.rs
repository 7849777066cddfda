//! Plans the call of the external tool that formats a diff: fills the
//! width placeholders of the configured command, and says which program to
//! run with which arguments and environment. Running it is left to the
//! caller.

use crate::cli::{OperationMode, OperationModeView};
use crate::config::{DiffCommandType, DiffCommandTypeView};
use crate::text::{
    chars_of, decimal, decimal_chars, owned, replace, replace_all, split_whitespace, string_of,
    strings_view, views_of, words,
};
use vstd::prelude::*;
use vstd::string::*;

verus! {

/// The widths that the placeholders of a command stand for.
#[derive(Debug, Clone, Copy, PartialEq, Eq, Structural)]
pub struct TemplateValues {
    /// Width of the terminal.
    pub width: u16,
    /// Half the terminal, less the padding of a column.
    pub column_width: u16,
    /// Width of the diff pane inside its border.
    pub diff_area_width: u16,
    /// Half the diff pane, less the padding of a column.
    pub diff_column_width: u16,
}

/// The widths for a diff pane of `area_width` columns, border included, in
/// a terminal of `terminal_width` columns. The border takes 2 columns and
/// the padding of a column 6; nothing goes below zero.
pub open spec fn template_values(area_width: u16, terminal_width: u16) -> TemplateValues {
    let diff_area_width = area_width.saturating_sub(2);
    TemplateValues {
        width: terminal_width,
        column_width: ((terminal_width / 2) as u16).saturating_sub(6),
        diff_area_width,
        diff_column_width: ((diff_area_width / 2) as u16).saturating_sub(6),
    }
}

/// Computes the widths that the placeholders stand for.
pub fn calculate_template_values(area_width: u16, terminal_width: u16) -> (values: TemplateValues)
    ensures
        values == template_values(area_width, terminal_width),
{
    let diff_area_width = area_width.saturating_sub(2);
    let column_width = (terminal_width / 2).saturating_sub(6);
    let diff_column_width = (diff_area_width / 2).saturating_sub(6);
    TemplateValues { width: terminal_width, column_width, diff_area_width, diff_column_width }
}

/// A command with one placeholder, in both its spellings, replaced by a
/// number.
pub open spec fn with_value(
    command: Seq<char>,
    plain: Seq<char>,
    dotted: Seq<char>,
    value: u16,
) -> Seq<char> {
    replace_all(
        replace_all(command, plain, decimal(value as nat)),
        dotted,
        decimal(value as nat),
    )
}

/// A command with its four placeholders replaced by their widths, one
/// placeholder after the other: `{{width}}`, `{{columnWidth}}`,
/// `{{diffAreaWidth}}`, `{{diffColumnWidth}}`, each also spelled with a
/// `.` before the name.
pub open spec fn substituted(command: Seq<char>, values: TemplateValues) -> Seq<char> {
    with_value(
        with_value(
            with_value(
                with_value(command, "{{width}}"@, "{{.width}}"@, values.width),
                "{{columnWidth}}"@,
                "{{.columnWidth}}"@,
                values.column_width,
            ),
            "{{diffAreaWidth}}"@,
            "{{.diffAreaWidth}}"@,
            values.diff_area_width,
        ),
        "{{diffColumnWidth}}"@,
        "{{.diffColumnWidth}}"@,
        values.diff_column_width,
    )
}

/// Replaces one placeholder, in both its spellings, by a number.
fn substitute_value(command: Vec<char>, plain: &str, dotted: &str, value: u16) -> (out: Vec<char>)
    ensures
        out@ == with_value(command@, plain@, dotted@, value),
{
    let digits = decimal_chars(value as u64);
    let plain_chars = chars_of(plain);
    let dotted_chars = chars_of(dotted);
    let first = replace(command.as_slice(), plain_chars.as_slice(), digits.as_slice());
    replace(first.as_slice(), dotted_chars.as_slice(), digits.as_slice())
}

/// Replaces the placeholders of a command by their widths.
pub fn apply_template_substitutions(command_str: &str, values: &TemplateValues) -> (out: String)
    ensures
        out@ == substituted(command_str@, *values),
{
    let chars = chars_of(command_str);
    let a = substitute_value(chars, "{{width}}", "{{.width}}", values.width);
    let b = substitute_value(a, "{{columnWidth}}", "{{.columnWidth}}", values.column_width);
    let c = substitute_value(b, "{{diffAreaWidth}}", "{{.diffAreaWidth}}", values.diff_area_width);
    let d = substitute_value(
        c,
        "{{diffColumnWidth}}",
        "{{.diffColumnWidth}}",
        values.diff_column_width,
    );
    string_of(d.as_slice())
}

/// The width of the diff pane where only the width of the terminal is
/// known: four fifths of it, less the border.
pub open spec fn assumed_area_width(width: u16) -> u16 {
    ((width * 80 / 100) as u16).saturating_sub(2)
}

/// Fills the placeholders of a command where only the width of the
/// terminal is known.
pub fn resolve_template_variables(command_str: &str, width: u16) -> (out: String)
    ensures
        out@ == substituted(command_str@, template_values(assumed_area_width(width), width)),
{
    let wide: u32 = width as u32 * 80 / 100;
    let area_width = (wide as u16).saturating_sub(2);
    let values = calculate_template_values(area_width, width);
    apply_template_substitutions(command_str, &values)
}

/// Fills the placeholders of a command for a diff pane and a terminal of
/// known widths.
pub fn resolve_template_variables_with_area_width(
    command_str: &str,
    area_width: u16,
    terminal_width: u16,
) -> (out: String)
    ensures
        out@ == substituted(command_str@, template_values(area_width, terminal_width)),
{
    let values = calculate_template_values(area_width, terminal_width);
    apply_template_substitutions(command_str, &values)
}

// ---------------------------------------------------------------------
// Invocations
// ---------------------------------------------------------------------

/// A program to run.
#[derive(Debug)]
pub struct Invocation {
    pub program: String,
    pub args: Vec<String>,
    /// Variables to set in the environment of the program.
    pub env: Vec<(String, String)>,
    /// Whether the diff text is written to the input of the program, all
    /// of it before any output is read.
    pub feeds_input: bool,
}

/// What an [`Invocation`] holds, as mathematical values.
pub struct InvocationView {
    pub program: Seq<char>,
    pub args: Seq<Seq<char>>,
    pub env: Seq<(Seq<char>, Seq<char>)>,
    pub feeds_input: bool,
}

/// The views of a list of variables.
pub open spec fn env_view(env: Seq<(String, String)>) -> Seq<(Seq<char>, Seq<char>)> {
    Seq::new(env.len(), |i: int| (env[i].0@, env[i].1@))
}

impl View for Invocation {
    type V = InvocationView;

    open spec fn view(&self) -> InvocationView {
        InvocationView {
            program: self.program@,
            args: strings_view(self.args@),
            env: env_view(self.env@),
            feeds_input: self.feeds_input,
        }
    }
}

/// What to do with the diff text before it is shown.
#[derive(Debug)]
pub enum ToolPlan {
    /// Show the text as it is.
    Identity,
    /// Run the program and show its output; where that fails, keep what is
    /// shown and warn.
    Run(Invocation),
    /// The tool cannot be run; the text says why. Keep what is shown and
    /// warn.
    Fail(String),
}

/// What a [`ToolPlan`] holds, as mathematical values.
pub enum ToolPlanView {
    Identity,
    Run(InvocationView),
    Fail(Seq<char>),
}

impl View for ToolPlan {
    type V = ToolPlanView;

    open spec fn view(&self) -> ToolPlanView {
        match self {
            ToolPlan::Identity => ToolPlanView::Identity,
            ToolPlan::Run(i) => ToolPlanView::Run(i@),
            ToolPlan::Fail(why) => ToolPlanView::Fail(why@),
        }
    }
}

/// The terminal type that the tool is told.
pub open spec fn terminal_type() -> Seq<char> {
    "xterm-256color"@
}

/// The number of lines that the tool is told.
pub open spec fn terminal_lines() -> Seq<char> {
    "50"@
}

/// The environment of a tool in a terminal of the given width.
pub open spec fn tool_environment(columns: u16) -> Seq<(Seq<char>, Seq<char>)> {
    seq![
        ("TERM"@, terminal_type()),
        ("COLUMNS"@, decimal(columns as nat)),
        ("LINES"@, terminal_lines()),
    ]
}

/// The call of a pager with the given command line: its first word is the
/// program, the others are the arguments; a line without a word cannot be
/// run. The pager reads the diff text from its input.
pub open spec fn pager_call(line: Seq<char>, env: Seq<(Seq<char>, Seq<char>)>) -> ToolPlanView {
    if words(line).len() == 0 {
        ToolPlanView::Fail("Empty command"@)
    } else {
        ToolPlanView::Run(
            InvocationView {
                program: words(line)[0],
                args: words(line).skip(1),
                env,
                feeds_input: true,
            },
        )
    }
}

/// The call of a pager for a diff pane and a terminal of known widths.
pub open spec fn pager_plan(
    command: Seq<char>,
    area_width: u16,
    terminal_width: u16,
) -> ToolPlanView {
    pager_call(
        substituted(command, template_values(area_width, terminal_width)),
        tool_environment(terminal_width),
    )
}

/// The call of a pager where at most the width of the terminal is known.
/// Without a width the command is taken as it is and no number of columns
/// is told.
pub open spec fn pager_plan_for_width(command: Seq<char>, width: Option<u16>) -> ToolPlanView {
    match width {
        Some(w) => {
            let content = w.saturating_sub(2);
            pager_call(
                substituted(command, template_values(assumed_area_width(content), content)),
                seq![
                    ("TERM"@, terminal_type()),
                    ("LINES"@, terminal_lines()),
                    ("COLUMNS"@, decimal(w as nat)),
                ],
            )
        },
        None => pager_call(
            command,
            seq![("TERM"@, terminal_type()), ("LINES"@, terminal_lines())],
        ),
    }
}

/// The targets that the comparison tool is given when it calls an
/// external diff command, where the mode allows that.
pub open spec fn external_targets(mode: OperationModeView) -> Option<Seq<Seq<char>>> {
    match mode {
        OperationModeView::GitWorkingDirectory => Some(Seq::empty()),
        OperationModeView::GitCached => Some(seq!["--cached"@]),
        OperationModeView::Compare { target1, target2 } => Some(seq![target1, target2]),
        OperationModeView::GitDiff { target } => Some(seq![target]),
        OperationModeView::GitStatus => None,
        OperationModeView::Completions { .. } => None,
        OperationModeView::Invalid { .. } => None,
    }
}

/// The call of the comparison tool that hands the formatting of one file
/// to an external diff command.
pub open spec fn external_plan(
    command: Seq<char>,
    area_width: u16,
    terminal_width: u16,
    mode: OperationModeView,
    file: Option<Seq<char>>,
) -> ToolPlanView {
    match file {
        None => ToolPlanView::Fail("No file selected for external diff"@),
        Some(path) => match external_targets(mode) {
            None => ToolPlanView::Fail("External diff not supported for this operation mode"@),
            Some(targets) => ToolPlanView::Run(
                InvocationView {
                    program: "git"@,
                    args: seq![
                        "-c"@,
                        "diff.external="@ + substituted(
                            command,
                            template_values(area_width, terminal_width),
                        ),
                        "-c"@,
                        "diff.noprefix=false"@,
                        "diff"@,
                        "--ext-diff"@,
                        "--color=always"@,
                    ] + targets + seq!["--"@, path],
                    env: tool_environment(terminal_width),
                    feeds_input: false,
                },
            ),
        },
    }
}

/// Builds the environment of a tool.
fn build_environment(columns: u16) -> (env: Vec<(String, String)>)
    ensures
        env_view(env@) == tool_environment(columns),
{
    let mut env: Vec<(String, String)> = Vec::new();
    env.push((owned("TERM"), owned("xterm-256color")));
    env.push((owned("COLUMNS"), string_of(decimal_chars(columns as u64).as_slice())));
    env.push((owned("LINES"), owned("50")));
    proof {
        assert(env_view(env@) =~= tool_environment(columns));
    }
    env
}

/// Splits a command line into program and arguments.
fn build_pager_call(line: &str, env: Vec<(String, String)>) -> (plan: ToolPlan)
    ensures
        plan@ == pager_call(line@, env_view(env@)),
{
    let chars = chars_of(line);
    let parts = split_whitespace(chars.as_slice());
    if parts.len() == 0 {
        return ToolPlan::Fail(owned("Empty command"));
    }
    proof {
        assert(views_of(parts@)[0] == parts@[0]@);
    }
    let program = string_of(parts[0].as_slice());
    let mut args: Vec<String> = Vec::new();
    let mut i: usize = 1;
    while i < parts.len()
        invariant
            1 <= i <= parts.len(),
            strings_view(args@) == views_of(parts@).subrange(1, i as int),
        decreases parts.len() - i,
    {
        let ghost before = strings_view(args@);
        let arg = string_of(parts[i].as_slice());
        args.push(arg);
        proof {
            assert(strings_view(args@) =~= before.push(parts@[i as int]@));
            assert(views_of(parts@).subrange(1, i + 1) =~= views_of(parts@).subrange(
                1,
                i as int,
            ).push(parts@[i as int]@));
        }
        i += 1;
    }
    proof {
        assert(views_of(parts@).subrange(1, parts@.len() as int) =~= views_of(parts@).skip(1));
    }
    ToolPlan::Run(Invocation { program, args, env, feeds_input: true })
}

/// Plans the call of a pager for a diff pane and a terminal of known
/// widths.
pub fn plan_pager(command_str: &str, area_width: u16, terminal_width: u16) -> (plan: ToolPlan)
    ensures
        plan@ == pager_plan(command_str@, area_width, terminal_width),
{
    let line = resolve_template_variables_with_area_width(command_str, area_width, terminal_width);
    build_pager_call(line.as_str(), build_environment(terminal_width))
}

/// Plans the call of a pager where at most the width of the terminal is
/// known.
pub fn plan_pager_for_width(command_str: &str, width: Option<u16>) -> (plan: ToolPlan)
    ensures
        plan@ == pager_plan_for_width(command_str@, width),
{
    let mut env: Vec<(String, String)> = Vec::new();
    env.push((owned("TERM"), owned("xterm-256color")));
    env.push((owned("LINES"), owned("50")));
    match width {
        Some(w) => {
            env.push((owned("COLUMNS"), string_of(decimal_chars(w as u64).as_slice())));
            proof {
                assert(env_view(env@) =~= seq![
                    ("TERM"@, terminal_type()),
                    ("LINES"@, terminal_lines()),
                    ("COLUMNS"@, decimal(w as nat)),
                ]);
            }
            let line = resolve_template_variables(command_str, w.saturating_sub(2));
            build_pager_call(line.as_str(), env)
        },
        None => {
            proof {
                assert(env_view(env@) =~= seq![
                    ("TERM"@, terminal_type()),
                    ("LINES"@, terminal_lines()),
                ]);
            }
            build_pager_call(command_str, env)
        },
    }
}

/// Plans the call of the comparison tool that hands the formatting of one
/// file to an external diff command. `file` is the path of the selected
/// file, if a file is selected.
pub fn plan_external_diff(
    command_str: &str,
    area_width: u16,
    terminal_width: u16,
    mode: &OperationMode,
    file: Option<&String>,
) -> (plan: ToolPlan)
    ensures
        plan@ == external_plan(
            command_str@,
            area_width,
            terminal_width,
            mode@,
            match file {
                Some(p) => Some(p@),
                None => None,
            },
        ),
{
    let line = resolve_template_variables_with_area_width(command_str, area_width, terminal_width);
    let path = match file {
        Some(p) => p,
        None => {
            return ToolPlan::Fail(owned("No file selected for external diff"));
        },
    };
    let mut args: Vec<String> = Vec::new();
    args.push(owned("-c"));
    let mut setting = owned("diff.external=");
    setting.append(line.as_str());
    args.push(setting);
    args.push(owned("-c"));
    args.push(owned("diff.noprefix=false"));
    args.push(owned("diff"));
    args.push(owned("--ext-diff"));
    args.push(owned("--color=always"));
    match mode {
        OperationMode::GitWorkingDirectory => {},
        OperationMode::GitCached => {
            args.push(owned("--cached"));
        },
        OperationMode::Compare { target1, target2 } => {
            args.push(target1.clone());
            args.push(target2.clone());
        },
        OperationMode::GitDiff { target } => {
            args.push(target.clone());
        },
        OperationMode::GitStatus => {
            return ToolPlan::Fail(owned("External diff not supported for this operation mode"));
        },
        OperationMode::Completions { .. } => {
            return ToolPlan::Fail(owned("External diff not supported for this operation mode"));
        },
        OperationMode::Invalid { .. } => {
            return ToolPlan::Fail(owned("External diff not supported for this operation mode"));
        },
    }
    args.push(owned("--"));
    args.push(path.clone());
    let env = build_environment(terminal_width);
    let plan = ToolPlan::Run(Invocation { program: owned("git"), args, env, feeds_input: false });
    proof {
        let goal = external_plan(command_str@, area_width, terminal_width, mode@, Some(path@));
        assert(goal is Run);
        assert(strings_view(args@) =~= goal->Run_0.args);
    }
    plan
}

/// What to do with the diff text where at most one width is known. An
/// external diff command takes `width` for the terminal, else
/// `terminal_width`, else 80 columns, and two columns less for the pane.
pub open spec fn plan_for_width(
    kind: DiffCommandTypeView,
    width: Option<u16>,
    terminal_width: Option<u16>,
    mode: OperationModeView,
    file: Option<Seq<char>>,
) -> ToolPlanView {
    match kind {
        DiffCommandTypeView::GitDefault => ToolPlanView::Identity,
        DiffCommandTypeView::Pager(command) => pager_plan_for_width(command, width),
        DiffCommandTypeView::External(command) => {
            let terminal = match width {
                Some(w) => w,
                None => match terminal_width {
                    Some(t) => t,
                    None => 80u16,
                },
            };
            external_plan(command, terminal.saturating_sub(2), terminal, mode, file)
        },
    }
}

/// What to do with the diff text for a diff pane and a terminal of known
/// widths.
pub open spec fn plan_for_area(
    kind: DiffCommandTypeView,
    area_width: u16,
    terminal_width: u16,
    mode: OperationModeView,
    file: Option<Seq<char>>,
) -> ToolPlanView {
    match kind {
        DiffCommandTypeView::GitDefault => ToolPlanView::Identity,
        DiffCommandTypeView::Pager(command) => pager_plan(command, area_width, terminal_width),
        DiffCommandTypeView::External(command) => external_plan(
            command,
            area_width,
            terminal_width,
            mode,
            file,
        ),
    }
}

/// Plans what to do with the diff text where at most one width is known.
pub fn plan_tool_for_width(
    kind: &DiffCommandType,
    width: Option<u16>,
    terminal_width: Option<u16>,
    mode: &OperationMode,
    file: Option<&String>,
) -> (plan: ToolPlan)
    ensures
        plan@ == plan_for_width(
            kind@,
            width,
            terminal_width,
            mode@,
            match file {
                Some(p) => Some(p@),
                None => None,
            },
        ),
{
    match kind {
        DiffCommandType::GitDefault => ToolPlan::Identity,
        DiffCommandType::Pager(command) => plan_pager_for_width(command.as_str(), width),
        DiffCommandType::External(command) => {
            let terminal: u16 = match width {
                Some(w) => w,
                None => match terminal_width {
                    Some(t) => t,
                    None => 80,
                },
            };
            plan_external_diff(command.as_str(), terminal.saturating_sub(2), terminal, mode, file)
        },
    }
}

/// Plans what to do with the diff text for a diff pane and a terminal of
/// known widths.
pub fn plan_tool_for_area(
    kind: &DiffCommandType,
    area_width: u16,
    terminal_width: u16,
    mode: &OperationMode,
    file: Option<&String>,
) -> (plan: ToolPlan)
    ensures
        plan@ == plan_for_area(
            kind@,
            area_width,
            terminal_width,
            mode@,
            match file {
                Some(p) => Some(p@),
                None => None,
            },
        ),
{
    match kind {
        DiffCommandType::GitDefault => ToolPlan::Identity,
        DiffCommandType::Pager(command) => plan_pager(command.as_str(), area_width, terminal_width),
        DiffCommandType::External(command) => plan_external_diff(
            command.as_str(),
            area_width,
            terminal_width,
            mode,
            file,
        ),
    }
}

/// Whether a change of the width of the diff pane calls for formatting the
/// diff anew: it does the first time, and later where the width differs
/// from the last one by more than 5 columns.
pub open spec fn width_changed(last_width: u16, current_width: u16) -> bool {
    last_width == 0 || current_width - last_width > 5 || last_width - current_width > 5
}

/// Whether to format the diff anew for the current width of the pane.
pub fn should_refresh_diff_width(last_width: u16, current_width: u16) -> (r: bool)
    ensures
        r == width_changed(last_width, current_width),
{
    if last_width == 0 {
        true
    } else if current_width >= last_width {
        current_width - last_width > 5
    } else {
        last_width - current_width > 5
    }
}

} // verus!
