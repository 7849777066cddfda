//! Which comparison commands to run for a mode. Running them is left to
//! the caller.

use crate::cli::{OperationMode, OperationModeView};
use crate::text::{
    body_end, chars_of, copy_range, line_body, lines_of, owned, split_lines, string_of,
    strings_view, views_of,
};
use vstd::prelude::*;
use vstd::string::*;

verus! {

/// Plans the calls of the comparison tool.
pub struct GitExecutor;

/// What has to be run to serve a request.
#[derive(Debug)]
pub enum GitRequest {
    /// Run the comparison tool with these arguments.
    Git(Vec<String>),
    /// Two targets that may be refs, files or directories: find out which,
    /// then ask [`GitExecutor::compare_request`].
    Compare { target1: String, target2: String },
    /// The mode cannot be served; the text says why.
    Unavailable(String),
}

/// What a [`GitRequest`] holds, as mathematical values.
pub enum GitRequestView {
    Git(Seq<Seq<char>>),
    Compare { target1: Seq<char>, target2: Seq<char> },
    Unavailable(Seq<char>),
}

impl View for GitRequest {
    type V = GitRequestView;

    open spec fn view(&self) -> GitRequestView {
        match self {
            GitRequest::Git(args) => GitRequestView::Git(strings_view(args@)),
            GitRequest::Compare { target1, target2 } => GitRequestView::Compare {
                target1: target1@,
                target2: target2@,
            },
            GitRequest::Unavailable(why) => GitRequestView::Unavailable(why@),
        }
    }
}

/// How two targets are compared once it is known what they are.
#[derive(Debug)]
pub enum CompareRequest {
    /// Both are refs: run the comparison tool with these arguments.
    Git(Vec<String>),
    /// Run the plain `diff` program with these arguments. It fails only
    /// where it exits with status 2.
    PlainDiff(Vec<String>),
    /// Nothing is run; these are the names to report.
    Names(Vec<String>),
}

/// What a [`CompareRequest`] holds, as mathematical values.
pub enum CompareRequestView {
    Git(Seq<Seq<char>>),
    PlainDiff(Seq<Seq<char>>),
    Names(Seq<Seq<char>>),
}

impl View for CompareRequest {
    type V = CompareRequestView;

    open spec fn view(&self) -> CompareRequestView {
        match self {
            CompareRequest::Git(args) => CompareRequestView::Git(strings_view(args@)),
            CompareRequest::PlainDiff(args) => CompareRequestView::PlainDiff(strings_view(args@)),
            CompareRequest::Names(names) => CompareRequestView::Names(strings_view(names@)),
        }
    }
}

/// What is asked of the comparison tool.
#[derive(Debug, Clone, Copy, PartialEq, Eq, Structural)]
pub enum Wanted {
    /// The diff of everything.
    Diff,
    /// The names of the changed files.
    Names,
    /// The diff of one file.
    FileDiff,
}

/// The arguments of the comparison tool: `diff`; `--cached` for the staged
/// changes; `--name-only` where names are wanted; the target, where there
/// is one; and, where the diff of one file is wanted, `--` and its path.
pub open spec fn git_arguments(
    wanted: Wanted,
    cached: bool,
    target: Option<Seq<char>>,
    file_path: Seq<char>,
) -> Seq<Seq<char>> {
    seq!["diff"@] + (if cached {
        seq!["--cached"@]
    } else {
        Seq::empty()
    }) + (if wanted == Wanted::Names {
        seq!["--name-only"@]
    } else {
        Seq::empty()
    }) + (match target {
        Some(t) => seq![t],
        None => Seq::empty(),
    }) + (if wanted == Wanted::FileDiff {
        seq!["--"@, file_path]
    } else {
        Seq::empty()
    })
}

/// The name of what is wanted, as the messages use it.
pub open spec fn wanted_name(wanted: Wanted) -> Seq<char> {
    match wanted {
        Wanted::Diff => "get_diff"@,
        Wanted::Names => "get_changed_files"@,
        Wanted::FileDiff => "get_file_diff"@,
    }
}

/// What has to be run to get what is wanted in a mode.
pub open spec fn request_for(
    mode: OperationModeView,
    wanted: Wanted,
    file_path: Seq<char>,
) -> GitRequestView {
    match mode {
        OperationModeView::GitWorkingDirectory => GitRequestView::Git(
            git_arguments(wanted, false, None, file_path),
        ),
        OperationModeView::GitCached => GitRequestView::Git(
            git_arguments(wanted, true, None, file_path),
        ),
        OperationModeView::GitDiff { target } => GitRequestView::Git(
            git_arguments(wanted, false, Some(target), file_path),
        ),
        OperationModeView::GitStatus => GitRequestView::Git(
            git_arguments(wanted, false, None, file_path),
        ),
        OperationModeView::Compare { target1, target2 } => GitRequestView::Compare {
            target1,
            target2,
        },
        OperationModeView::Completions { .. } => GitRequestView::Unavailable(
            "Completions mode should not call "@ + wanted_name(wanted),
        ),
        OperationModeView::Invalid { reason } => GitRequestView::Unavailable(
            "Invalid operation mode: "@ + reason,
        ),
    }
}

/// How two targets are compared: as the range `target1..target2` by the
/// comparison tool where both are refs, else by the plain `diff` program;
/// the names of two targets that are not both refs are the targets.
pub open spec fn compare_for(
    target1: Seq<char>,
    target2: Seq<char>,
    both_are_refs: bool,
    wanted: Wanted,
    file_path: Seq<char>,
) -> CompareRequestView {
    if both_are_refs {
        CompareRequestView::Git(
            git_arguments(wanted, false, Some(target1 + ".."@ + target2), file_path),
        )
    } else if wanted == Wanted::Names {
        CompareRequestView::Names(seq![target1, target2])
    } else {
        CompareRequestView::PlainDiff(seq!["-u"@, target1, target2])
    }
}

/// The view of an optional string.
pub open spec fn opt_text(s: Option<String>) -> Option<Seq<char>> {
    match s {
        Some(s) => Some(s@),
        None => None,
    }
}

/// Builds the arguments of the comparison tool.
fn build_arguments(wanted: Wanted, cached: bool, target: Option<String>, file_path: &str) -> (args:
    Vec<String>)
    ensures
        strings_view(args@) == git_arguments(wanted, cached, opt_text(target), file_path@),
{
    let mut args: Vec<String> = Vec::new();
    args.push(owned("diff"));
    if cached {
        args.push(owned("--cached"));
    }
    if wanted == Wanted::Names {
        args.push(owned("--name-only"));
    }
    match target {
        Some(t) => {
            args.push(t);
        },
        None => {},
    }
    if wanted == Wanted::FileDiff {
        args.push(owned("--"));
        args.push(owned(file_path));
    }
    proof {
        assert(strings_view(args@) =~= git_arguments(
            wanted,
            cached,
            opt_text(target),
            file_path@,
        ));
    }
    args
}

impl GitExecutor {
    /// A planner.
    pub fn new() -> (executor: Self) {
        Self
    }

    /// What has to be run to get what is wanted in a mode. `file_path` is
    /// read only where the diff of one file is wanted.
    pub fn request(&self, mode: &OperationMode, wanted: Wanted, file_path: &str) -> (r:
        GitRequest)
        ensures
            r@ == request_for(mode@, wanted, file_path@),
    {
        match mode {
            OperationMode::GitWorkingDirectory => {
                GitRequest::Git(build_arguments(wanted, false, None, file_path))
            },
            OperationMode::GitStatus => {
                GitRequest::Git(build_arguments(wanted, false, None, file_path))
            },
            OperationMode::GitCached => {
                GitRequest::Git(build_arguments(wanted, true, None, file_path))
            },
            OperationMode::GitDiff { target } => {
                GitRequest::Git(build_arguments(wanted, false, Some(target.clone()), file_path))
            },
            OperationMode::Compare { target1, target2 } => GitRequest::Compare {
                target1: target1.clone(),
                target2: target2.clone(),
            },
            OperationMode::Completions { .. } => {
                let mut why = owned("Completions mode should not call ");
                match wanted {
                    Wanted::Diff => why.append("get_diff"),
                    Wanted::Names => why.append("get_changed_files"),
                    Wanted::FileDiff => why.append("get_file_diff"),
                }
                GitRequest::Unavailable(why)
            },
            OperationMode::Invalid { reason } => {
                let mut why = owned("Invalid operation mode: ");
                why.append(reason.as_str());
                GitRequest::Unavailable(why)
            },
        }
    }

    /// How two targets are compared once it is known whether both are
    /// refs.
    pub fn compare_request(
        &self,
        target1: &str,
        target2: &str,
        both_are_refs: bool,
        wanted: Wanted,
        file_path: &str,
    ) -> (r: CompareRequest)
        ensures
            r@ == compare_for(target1@, target2@, both_are_refs, wanted, file_path@),
    {
        if both_are_refs {
            let mut range = owned(target1);
            range.append("..");
            range.append(target2);
            CompareRequest::Git(build_arguments(wanted, false, Some(range), file_path))
        } else {
            if wanted == Wanted::Names {
                let mut names: Vec<String> = Vec::new();
                names.push(owned(target1));
                names.push(owned(target2));
                proof {
                    assert(strings_view(names@) =~= seq![target1@, target2@]);
                }
                CompareRequest::Names(names)
            } else {
                let mut args: Vec<String> = Vec::new();
                args.push(owned("-u"));
                args.push(owned(target1));
                args.push(owned(target2));
                proof {
                    assert(strings_view(args@) =~= seq!["-u"@, target1@, target2@]);
                }
                CompareRequest::PlainDiff(args)
            }
        }
    }
}


// ---------------------------------------------------------------------
// What the outcome of a run means
// ---------------------------------------------------------------------

/// A program that was run.
#[derive(Debug, Clone, Copy, PartialEq, Eq, Structural)]
pub enum Ran {
    /// The comparison tool, for a diff.
    GitDiff,
    /// The comparison tool, for the names of the changed files.
    GitNames,
    /// The plain `diff` program.
    PlainDiff,
    /// A pager.
    Pager,
    /// The comparison tool with an external diff command.
    ExternalDiff,
}

/// Whether a run failed. The plain `diff` program exits with status 1
/// where the files differ, so only status 2 is a failure of it; any other
/// program failed where it did not report success.
pub open spec fn run_failed(ran: Ran, success: bool, exit_code: Option<i32>) -> bool {
    if ran == Ran::PlainDiff {
        exit_code == Some(2i32)
    } else {
        !success
    }
}

/// The words that begin the message of a failed run; the error output of
/// the program follows them.
pub open spec fn failure_words(ran: Ran) -> Seq<char> {
    match ran {
        Ran::GitDiff => "Git diff failed: "@,
        Ran::GitNames => "Git diff --name-only failed: "@,
        Ran::PlainDiff => "Diff command failed: "@,
        Ran::Pager => "Command failed: "@,
        Ran::ExternalDiff => "Git external diff failed: "@,
    }
}

/// The message for output that is not valid UTF-8.
pub open spec fn encoding_words(ran: Ran) -> Seq<char> {
    match ran {
        Ran::GitDiff => "Git diff output is not valid UTF-8"@,
        Ran::GitNames => "Git output is not valid UTF-8"@,
        Ran::PlainDiff => "Diff output is not valid UTF-8"@,
        Ran::Pager => "Command output is not valid UTF-8"@,
        Ran::ExternalDiff => "Git external diff output is not valid UTF-8"@,
    }
}

/// What a run gives: its output as text, or the message of its failure.
/// `output` is the output where it is valid UTF-8.
pub open spec fn run_outcome(
    ran: Ran,
    success: bool,
    exit_code: Option<i32>,
    output: Option<Seq<char>>,
    error_output: Seq<char>,
) -> Result<Seq<char>, Seq<char>> {
    if run_failed(ran, success, exit_code) {
        Err(failure_words(ran) + error_output)
    } else {
        match output {
            Some(text) => Ok(text),
            None => Err(encoding_words(ran)),
        }
    }
}

/// The view of the outcome of a run.
pub open spec fn outcome_view(r: Result<String, String>) -> Result<Seq<char>, Seq<char>> {
    match r {
        Ok(text) => Ok(text@),
        Err(why) => Err(why@),
    }
}

/// Says what a run gives: its output as text, or the message of its
/// failure. `output` is the output where it is valid UTF-8.
pub fn interpret_run(
    ran: Ran,
    success: bool,
    exit_code: Option<i32>,
    output: Option<String>,
    error_output: &str,
) -> (r: Result<String, String>)
    ensures
        outcome_view(r) == run_outcome(ran, success, exit_code, opt_text(output), error_output@),
{
    let failed = match ran {
        Ran::PlainDiff => match exit_code {
            Some(code) => code == 2,
            None => false,
        },
        Ran::GitDiff => !success,
        Ran::GitNames => !success,
        Ran::Pager => !success,
        Ran::ExternalDiff => !success,
    };
    if failed {
        let mut why = match ran {
            Ran::GitDiff => owned("Git diff failed: "),
            Ran::GitNames => owned("Git diff --name-only failed: "),
            Ran::PlainDiff => owned("Diff command failed: "),
            Ran::Pager => owned("Command failed: "),
            Ran::ExternalDiff => owned("Git external diff failed: "),
        };
        why.append(error_output);
        Err(why)
    } else {
        match output {
            Some(text) => Ok(text),
            None => Err(
                match ran {
                    Ran::GitDiff => owned("Git diff output is not valid UTF-8"),
                    Ran::GitNames => owned("Git output is not valid UTF-8"),
                    Ran::PlainDiff => owned("Diff output is not valid UTF-8"),
                    Ran::Pager => owned("Command output is not valid UTF-8"),
                    Ran::ExternalDiff => owned("Git external diff output is not valid UTF-8"),
                },
            ),
        }
    }
}

/// The bodies of the given lines that are not empty, in their order.
pub open spec fn filled_bodies(lines: Seq<Seq<char>>) -> Seq<Seq<char>>
    decreases lines.len(),
{
    if lines.len() == 0 {
        Seq::empty()
    } else if line_body(lines.last()).len() == 0 {
        filled_bodies(lines.drop_last())
    } else {
        filled_bodies(lines.drop_last()).push(line_body(lines.last()))
    }
}

/// The names that a list of names holds, one a line; empty lines are left
/// out.
pub open spec fn names_in(output: Seq<char>) -> Seq<Seq<char>> {
    filled_bodies(split_lines(output))
}

/// Reads the names of the changed files from the output of the comparison
/// tool.
pub fn changed_file_names(output: &str) -> (names: Vec<String>)
    ensures
        strings_view(names@) == names_in(output@),
{
    let chars = chars_of(output);
    let lines = lines_of(chars.as_slice());
    let mut names: Vec<String> = Vec::new();
    let mut i: usize = 0;
    proof {
        assert(views_of(lines@).take(0) =~= Seq::<Seq<char>>::empty());
        assert(strings_view(names@) =~= Seq::<Seq<char>>::empty());
    }
    while i < lines.len()
        invariant
            i <= lines.len(),
            views_of(lines@) == split_lines(output@),
            strings_view(names@) == filled_bodies(views_of(lines@).take(i as int)),
        decreases lines.len() - i,
    {
        let ghost before = strings_view(names@);
        proof {
            let upto = views_of(lines@).take(i + 1);
            assert(upto.drop_last() =~= views_of(lines@).take(i as int));
            assert(upto.last() == lines@[i as int]@);
        }
        let end = body_end(lines[i].as_slice());
        if end > 0 {
            let body = copy_range(lines[i].as_slice(), 0, end);
            proof {
                assert(lines@[i as int]@.take(end as int) =~= body@);
            }
            let name = string_of(body.as_slice());
            names.push(name);
            proof {
                assert(strings_view(names@) =~= before.push(body@));
            }
        }
        i += 1;
    }
    proof {
        assert(views_of(lines@).take(lines@.len() as int) =~= views_of(lines@));
    }
    names
}

} // verus!
