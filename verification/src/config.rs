//! Which tool formats the diff, as the configuration says it.

use crate::text::{
    all_whitespace, chars_of, is_blank, owned, split_whitespace, str_equal, string_of, strings_view,
    views_of, words,
};
use crate::theme::Theme;
use vstd::prelude::*;
use vstd::string::*;

verus! {

/// How the diff text is formatted for display.
#[derive(Debug)]
pub enum DiffCommandType {
    /// The comparison tool's own output, as it is.
    GitDefault,
    /// A pager that reads the diff text and writes what is shown.
    Pager(String),
    /// A command that the comparison tool calls in place of its own
    /// formatting.
    External(String),
}

/// What a [`DiffCommandType`] holds, as mathematical values.
pub enum DiffCommandTypeView {
    GitDefault,
    Pager(Seq<char>),
    External(Seq<char>),
}

impl View for DiffCommandType {
    type V = DiffCommandTypeView;

    open spec fn view(&self) -> DiffCommandTypeView {
        match self {
            DiffCommandType::GitDefault => DiffCommandTypeView::GitDefault,
            DiffCommandType::Pager(c) => DiffCommandTypeView::Pager(c@),
            DiffCommandType::External(c) => DiffCommandTypeView::External(c@),
        }
    }
}

impl Clone for DiffCommandType {
    fn clone(&self) -> (out: Self)
        ensures
            out == *self,
    {
        match self {
            DiffCommandType::GitDefault => DiffCommandType::GitDefault,
            DiffCommandType::Pager(c) => DiffCommandType::Pager(c.clone()),
            DiffCommandType::External(c) => DiffCommandType::External(c.clone()),
        }
    }
}

/// The `git.paging` section of the configuration.
#[derive(Debug)]
pub struct GitPagingConfig {
    /// A pager that processes the diff output.
    pub pager: String,
    /// A command that replaces the comparison tool's formatting.
    pub external_diff_command: String,
    /// The color argument given to the comparison tool.
    pub color_arg: String,
    /// Whether to use the pager of the comparison tool's own configuration.
    pub use_config: bool,
}

/// The color argument where the configuration names none.
pub fn default_color_arg() -> (s: String)
    ensures
        s@ == "always"@,
{
    owned("always")
}

impl Default for GitPagingConfig {
    fn default() -> (c: Self)
        ensures
            c.pager@ == Seq::<char>::empty(),
            c.external_diff_command@ == Seq::<char>::empty(),
            c.color_arg@ == "always"@,
            !c.use_config,
    {
        GitPagingConfig {
            pager: String::new(),
            external_diff_command: String::new(),
            color_arg: default_color_arg(),
            use_config: false,
        }
    }
}

impl Clone for GitPagingConfig {
    fn clone(&self) -> (out: Self)
        ensures
            out == *self,
    {
        GitPagingConfig {
            pager: self.pager.clone(),
            external_diff_command: self.external_diff_command.clone(),
            color_arg: self.color_arg.clone(),
            use_config: self.use_config,
        }
    }
}

/// The command type that a pager and an external diff command give: the
/// external command where it is not blank, else the pager where it is not
/// blank, else the default.
pub open spec fn effective_command(pager: Seq<char>, external: Seq<char>) -> DiffCommandTypeView {
    if !is_blank(external) {
        DiffCommandTypeView::External(external)
    } else if !is_blank(pager) {
        DiffCommandTypeView::Pager(pager)
    } else {
        DiffCommandTypeView::GitDefault
    }
}

impl GitPagingConfig {
    /// Whether an external diff command is configured: one that holds more
    /// than whitespace.
    pub fn has_external_diff_command(&self) -> (r: bool)
        ensures
            r == !is_blank(self.external_diff_command@),
    {
        let chars = chars_of(self.external_diff_command.as_str());
        !all_whitespace(chars.as_slice())
    }

    /// Whether a pager is configured: one that holds more than whitespace.
    pub fn has_pager(&self) -> (r: bool)
        ensures
            r == !is_blank(self.pager@),
    {
        let chars = chars_of(self.pager.as_str());
        !all_whitespace(chars.as_slice())
    }

    /// The command to use; the external diff command goes before the
    /// pager.
    pub fn get_effective_command(&self) -> (r: DiffCommandType)
        ensures
            r@ == effective_command(self.pager@, self.external_diff_command@),
    {
        if self.has_external_diff_command() {
            DiffCommandType::External(self.external_diff_command.clone())
        } else if self.has_pager() {
            DiffCommandType::Pager(self.pager.clone())
        } else {
            DiffCommandType::GitDefault
        }
    }
}

/// The older form of the configuration: a command with its arguments.
#[derive(Debug)]
pub struct DiffCommand {
    pub command: String,
    pub args: Vec<String>,
    pub display_name: String,
}

/// The display name where the configuration names none.
pub fn default_display_name() -> (s: String)
    ensures
        s@ == "git diff"@,
{
    owned("git diff")
}

impl Default for DiffCommand {
    fn default() -> (c: Self)
        ensures
            c.command@ == "diff"@,
            c.args@.len() == 1,
            c.args@[0]@ == "-u"@,
            c.display_name@ == "git diff"@,
    {
        let mut args: Vec<String> = Vec::new();
        args.push(owned("-u"));
        DiffCommand { command: owned("diff"), args, display_name: default_display_name() }
    }
}

/// A copy of a list of strings.
pub fn clone_strings(v: &Vec<String>) -> (out: Vec<String>)
    ensures
        out@ == v@,
{
    let mut out: Vec<String> = Vec::new();
    let mut i: usize = 0;
    while i < v.len()
        invariant
            i <= v.len(),
            out@ == v@.take(i as int),
        decreases v.len() - i,
    {
        out.push(v[i].clone());
        i += 1;
    }
    proof {
        assert(v@.take(v@.len() as int) =~= v@);
    }
    out
}

impl DiffCommand {
    /// Whether two commands hold the same texts.
    pub open spec fn same_as(&self, other: &DiffCommand) -> bool {
        self.command == other.command && self.args@ == other.args@ && self.display_name
            == other.display_name
    }
}

impl Clone for DiffCommand {
    fn clone(&self) -> (out: Self)
        ensures
            out.same_as(self),
    {
        DiffCommand {
            command: self.command.clone(),
            args: clone_strings(&self.args),
            display_name: self.display_name.clone(),
        }
    }
}

/// The `git` section of the configuration.
#[derive(Debug)]
pub struct GitConfig {
    pub paging: GitPagingConfig,
}

impl Default for GitConfig {
    fn default() -> (c: Self)
        ensures
            c.paging.pager@ == Seq::<char>::empty(),
            c.paging.external_diff_command@ == Seq::<char>::empty(),
            c.paging.color_arg@ == "always"@,
            !c.paging.use_config,
    {
        GitConfig { paging: GitPagingConfig::default() }
    }
}

impl Clone for GitConfig {
    fn clone(&self) -> (out: Self)
        ensures
            out == *self,
    {
        GitConfig { paging: self.paging.clone() }
    }
}

/// The configuration.
#[derive(Debug)]
pub struct Config {
    pub git: GitConfig,
    /// The older form of the diff command, still read.
    pub diff_command: Option<DiffCommand>,
    pub theme: Theme,
}

impl Default for Config {
    fn default() -> (c: Self)
        ensures
            c.git.paging.pager@ == Seq::<char>::empty(),
            c.git.paging.external_diff_command@ == Seq::<char>::empty(),
            c.git.paging.color_arg@ == "always"@,
            !c.git.paging.use_config,
            c.diff_command is None,
            c.theme.name@ == "dark"@,
            c.theme.colors == crate::theme::spec_dark_theme(),
    {
        Config { git: GitConfig::default(), diff_command: None, theme: Theme::default() }
    }
}

impl Clone for Config {
    fn clone(&self) -> (out: Self)
        ensures
            out.git == self.git,
            out.theme == self.theme,
            match (out.diff_command, self.diff_command) {
                (Some(a), Some(b)) => a.same_as(&b),
                (None, None) => true,
                _ => false,
            },
    {
        Config {
            git: self.git.clone(),
            diff_command: match &self.diff_command {
                Some(c) => Some(c.clone()),
                None => None,
            },
            theme: self.theme.clone(),
        }
    }
}

/// The texts joined with one space between them.
pub open spec fn join_with_spaces(parts: Seq<Seq<char>>) -> Seq<char>
    decreases parts.len(),
{
    if parts.len() == 0 {
        Seq::empty()
    } else if parts.len() == 1 {
        parts[0]
    } else {
        join_with_spaces(parts.drop_last()) + seq![' '] + parts.last()
    }
}

/// The command line of an older-form command: the command, then its
/// arguments, with one space between them.
pub open spec fn older_command_line(command: Seq<char>, args: Seq<Seq<char>>) -> Seq<char> {
    if args.len() == 0 {
        command
    } else {
        command + seq![' '] + join_with_spaces(args)
    }
}

/// The command type of a configuration: that of `git.paging` where it
/// names a tool; else the older-form command as a pager, unless it is
/// absent or plain `diff`.
pub open spec fn command_type_of(
    pager: Seq<char>,
    external: Seq<char>,
    older: Option<(Seq<char>, Seq<Seq<char>>)>,
) -> DiffCommandTypeView {
    match effective_command(pager, external) {
        DiffCommandTypeView::GitDefault => match older {
            Some((command, args)) => if command != "diff"@ {
                DiffCommandTypeView::Pager(older_command_line(command, args))
            } else {
                DiffCommandTypeView::GitDefault
            },
            None => DiffCommandTypeView::GitDefault,
        },
        other => other,
    }
}

/// The name under which a command type is shown: the first word of its
/// command and the kind of tool.
pub open spec fn display_name_of(kind: DiffCommandTypeView) -> Seq<char> {
    match kind {
        DiffCommandTypeView::GitDefault => "git diff"@,
        DiffCommandTypeView::Pager(c) => (if words(c).len() > 0 {
            words(c)[0]
        } else {
            "pager"@
        }) + " (pager)"@,
        DiffCommandTypeView::External(c) => (if words(c).len() > 0 {
            words(c)[0]
        } else {
            "external"@
        }) + " (external)"@,
    }
}

/// Joins texts with one space between them.
pub fn join_spaced(parts: &Vec<String>) -> (out: String)
    ensures
        out@ == join_with_spaces(strings_view(parts@)),
{
    let mut out = String::new();
    let mut i: usize = 0;
    proof {
        assert(strings_view(parts@).take(0) =~= Seq::<Seq<char>>::empty());
    }
    while i < parts.len()
        invariant
            i <= parts.len(),
            out@ == join_with_spaces(strings_view(parts@).take(i as int)),
        decreases parts.len() - i,
    {
        proof {
            let upto = strings_view(parts@).take(i + 1);
            assert(upto.drop_last() =~= strings_view(parts@).take(i as int));
            assert(upto.last() == parts@[i as int]@);
            reveal_strlit(" ");
            assert(" "@ =~= seq![' ']);
        }
        if i > 0 {
            out.append(" ");
        }
        out.append(parts[i].as_str());
        proof {
            if i == 0 {
                assert(Seq::<char>::empty() + parts@[0]@ =~= parts@[0]@);
            }
        }
        i += 1;
    }
    proof {
        assert(strings_view(parts@).take(parts@.len() as int) =~= strings_view(parts@));
    }
    out
}

/// The first word of a command, or `fallback` where it has none.
fn first_word_or(command: &str, fallback: &str) -> (out: String)
    ensures
        out@ == if words(command@).len() > 0 {
            words(command@)[0]
        } else {
            fallback@
        },
{
    let chars = chars_of(command);
    let parts = split_whitespace(chars.as_slice());
    if parts.len() > 0 {
        proof {
            assert(views_of(parts@)[0] == parts@[0]@);
        }
        string_of(parts[0].as_slice())
    } else {
        owned(fallback)
    }
}

impl Config {
    /// What the configuration holds of the older-form command.
    pub open spec fn older_view(&self) -> Option<(Seq<char>, Seq<Seq<char>>)> {
        match self.diff_command {
            Some(c) => Some((c.command@, strings_view(c.args@))),
            None => None,
        }
    }

    /// The command type of the configuration.
    pub open spec fn command_type(&self) -> DiffCommandTypeView {
        command_type_of(
            self.git.paging.pager@,
            self.git.paging.external_diff_command@,
            self.older_view(),
        )
    }

    /// The command that formats the diff: that of `git.paging` where it
    /// names one, else the older-form command as a pager, unless it is
    /// absent or plain `diff`.
    pub fn get_diff_command_type(&self) -> (r: DiffCommandType)
        ensures
            r@ == self.command_type(),
    {
        let effective = self.git.paging.get_effective_command();
        match effective {
            DiffCommandType::GitDefault => {
                match &self.diff_command {
                    Some(older) => {
                        if !str_equal(older.command.as_str(), "diff") {
                            let full = if older.args.len() == 0 {
                                older.command.clone()
                            } else {
                                let mut line = older.command.clone();
                                proof {
                                    reveal_strlit(" ");
                                    assert(" "@ =~= seq![' ']);
                                }
                                line.append(" ");
                                line.append(join_spaced(&older.args).as_str());
                                line
                            };
                            DiffCommandType::Pager(full)
                        } else {
                            DiffCommandType::GitDefault
                        }
                    },
                    None => DiffCommandType::GitDefault,
                }
            },
            DiffCommandType::Pager(c) => DiffCommandType::Pager(c),
            DiffCommandType::External(c) => DiffCommandType::External(c),
        }
    }

    /// The name under which the configured tool is shown.
    pub fn get_diff_display_name(&self) -> (name: String)
        ensures
            name@ == display_name_of(self.command_type()),
    {
        match self.get_diff_command_type() {
            DiffCommandType::GitDefault => owned("git diff"),
            DiffCommandType::Pager(c) => {
                let mut name = first_word_or(c.as_str(), "pager");
                name.append(" (pager)");
                name
            },
            DiffCommandType::External(c) => {
                let mut name = first_word_or(c.as_str(), "external");
                name.append(" (external)");
                name
            },
        }
    }
}

} // verus!
