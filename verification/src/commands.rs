//! What the `jj` wrappers decide around running `jj`: the arguments it is
//! run with, which text is shown, and the exit code passed on.
use vstd::prelude::*;
use crate::filters::{
    diff_summary, filter_jj_diff, filter_jj_log, filter_jj_show, filter_jj_status,
    log_filter_result, show_summary, starts_with_literal, status_summary, string_views,
};
use crate::text::{chars_of, push_all, starts_with, string_of, trim, trim_chars};

verus! {

/// The `jj` subcommands whose output is filtered.
#[derive(Clone, Copy, Debug, PartialEq, Eq, Structural)]
pub enum JjCommand {
    Status,
    Diff,
    Log,
    Show,
}

/// The errors of the wrappers.
#[derive(Clone, Copy, Debug, PartialEq, Eq, Structural)]
pub enum JjError {
    /// `jj` was asked to run without a subcommand.
    NoSubcommand,
}

impl JjError {
    /// The text of the error.
    pub fn message(&self) -> (res: String)
        ensures
            res@ == "jj: no subcommand specified"@,
    {
        match self {
            JjError::NoSubcommand => "jj: no subcommand specified".to_owned(),
        }
    }
}

/// The arguments that come before the user's for a subcommand.
pub open spec fn fixed_args(cmd: JjCommand) -> Seq<Seq<char>> {
    match cmd {
        JjCommand::Status => seq!["status"@, "--no-pager"@],
        JjCommand::Diff => seq!["diff"@, "--no-pager"@, "--git"@],
        JjCommand::Log => seq!["log"@, "--no-pager"@],
        JjCommand::Show => seq!["show"@, "--no-pager"@, "--git"@],
    }
}

/// An argument that limits how many changes `jj log` shows.
pub open spec fn is_limit_arg(a: Seq<char>) -> bool {
    a == "-n"@ || a == "--limit"@ || starts_with(a, "--limit="@)
}

/// Whether the user's arguments already limit `jj log`.
pub open spec fn has_limit(args: Seq<Seq<char>>) -> bool {
    exists|i: int| 0 <= i < args.len() && is_limit_arg(#[trigger] args[i])
}

/// The limit added to `jj log` when the user gave none.
pub open spec fn default_limit() -> Seq<Seq<char>> {
    seq!["--limit"@, "10"@]
}

/// The arguments `jj` is run with for `cmd` and the user's `args`: the
/// subcommand's fixed arguments, for `log` a limit of 10 unless the user
/// gave one, then the user's arguments.
pub open spec fn command_args(cmd: JjCommand, args: Seq<Seq<char>>) -> Seq<Seq<char>> {
    if cmd == JjCommand::Log && !has_limit(args) {
        fixed_args(cmd) + default_limit() + args
    } else {
        fixed_args(cmd) + args
    }
}

/// Appends a copy of `s` to `v`.
fn push_string(v: &mut Vec<String>, s: &str)
    ensures
        string_views(final(v)@) == string_views(old(v)@).push(s@),
{
    let owned = s.to_owned();
    let ghost sv = owned@;
    v.push(owned);
    assert(string_views(v@) =~= string_views(old(v)@).push(sv));
}

/// Appends copies of `args` to `v`.
fn push_strings(v: &mut Vec<String>, args: &Vec<String>)
    ensures
        string_views(final(v)@) == string_views(old(v)@) + string_views(args@),
{
    let n = args.len();
    for i in 0..n
        invariant
            n == args.len(),
            string_views(v@) == string_views(old(v)@) + string_views(args@).take(i as int),
    {
        push_string(v, args[i].as_str());
        assert(string_views(args@).take(i + 1) =~= string_views(args@).take(i as int).push(
            args@[i as int]@,
        ));
    }
    assert(string_views(args@).take(n as int) =~= string_views(args@));
}

/// Whether `a` limits `jj log`.
fn is_limit_argument(a: &String) -> (res: bool)
    ensures
        res == is_limit_arg(a@),
{
    let v = chars_of(a.as_str());
    crate::text::equal_chars(&v, &chars_of("-n")) || crate::text::equal_chars(
        &v,
        &chars_of("--limit"),
    ) || starts_with_literal(&v, "--limit=")
}

/// Whether the user's arguments already limit `jj log`.
pub fn has_limit_arg(args: &Vec<String>) -> (res: bool)
    ensures
        res == has_limit(string_views(args@)),
{
    let n = args.len();
    for i in 0..n
        invariant
            n == args.len(),
            forall|j: int| 0 <= j < i ==> !is_limit_arg(#[trigger] string_views(args@)[j]),
    {
        if is_limit_argument(&args[i]) {
            assert(is_limit_arg(string_views(args@)[i as int]));
            return true;
        }
    }
    false
}

/// The arguments to run `jj` with for `cmd` and the user's `args`.
pub fn jj_args(cmd: JjCommand, args: &Vec<String>) -> (res: Vec<String>)
    ensures
        string_views(res@) == command_args(cmd, string_views(args@)),
{
    let mut res: Vec<String> = Vec::new();
    match cmd {
        JjCommand::Status => {
            push_string(&mut res, "status");
            push_string(&mut res, "--no-pager");
        },
        JjCommand::Diff => {
            push_string(&mut res, "diff");
            push_string(&mut res, "--no-pager");
            push_string(&mut res, "--git");
        },
        JjCommand::Log => {
            push_string(&mut res, "log");
            push_string(&mut res, "--no-pager");
            if !has_limit_arg(args) {
                push_string(&mut res, "--limit");
                push_string(&mut res, "10");
            }
        },
        JjCommand::Show => {
            push_string(&mut res, "show");
            push_string(&mut res, "--no-pager");
            push_string(&mut res, "--git");
        },
    }
    assert(string_views(res@) =~= if cmd == JjCommand::Log && !has_limit(string_views(args@)) {
        fixed_args(cmd) + default_limit()
    } else {
        fixed_args(cmd)
    });
    push_strings(&mut res, args);
    res
}

/// The arguments to run `jj` with to pass a subcommand through unfiltered:
/// `--no-pager` and then the arguments, the first of which names the
/// subcommand; an error when there is none.
pub fn passthrough_args(args: &Vec<String>) -> (res: Result<Vec<String>, JjError>)
    ensures
        args.len() == 0 <==> res is Err,
        res matches Err(e) ==> e == JjError::NoSubcommand,
        res matches Ok(v) ==> string_views(v@) == seq!["--no-pager"@] + string_views(args@),
{
    if args.len() == 0 {
        return Err(JjError::NoSubcommand);
    }
    let mut res: Vec<String> = Vec::new();
    push_string(&mut res, "--no-pager");
    push_strings(&mut res, args);
    Ok(res)
}

/// The exit code that `jj` ended with: its own, or, when it has none (it
/// was ended by a signal), 0 for success and 1 otherwise.
pub fn exit_code(code: Option<i32>, success: bool) -> (res: i32)
    ensures
        res == match code {
            Some(c) => c,
            None => if success { 0i32 } else { 1i32 },
        },
{
    match code {
        Some(c) => c,
        None => if success { 0 } else { 1 },
    }
}

/// The full text that `jj` printed: its output, a newline, its errors.
pub fn raw_output(stdout: &str, stderr: &str) -> (res: String)
    ensures
        res@ == stdout@ + "\n"@ + stderr@,
{
    let mut v = chars_of(stdout);
    push_all(&mut v, &chars_of("\n"));
    push_all(&mut v, &chars_of(stderr));
    string_of(&v)
}

/// What is shown for `cmd`'s output: with `verbose`, the output trimmed;
/// else the subcommand's filter applied to it.
pub open spec fn shown_output(cmd: JjCommand, stdout: Seq<char>, verbose: u8) -> Seq<char> {
    if verbose > 0 {
        trim(stdout)
    } else {
        match cmd {
            JjCommand::Status => status_summary(stdout),
            JjCommand::Diff => diff_summary(stdout),
            JjCommand::Log => log_filter_result(stdout),
            JjCommand::Show => show_summary(stdout),
        }
    }
}

/// The text shown for `cmd`'s output.
pub fn filtered_output(cmd: JjCommand, stdout: &str, verbose: u8) -> (res: String)
    ensures
        res@ == shown_output(cmd, stdout@, verbose),
{
    if verbose > 0 {
        return string_of(&trim_chars(&chars_of(stdout)));
    }
    match cmd {
        JjCommand::Status => filter_jj_status(stdout),
        JjCommand::Diff => filter_jj_diff(stdout),
        JjCommand::Log => filter_jj_log(stdout),
        JjCommand::Show => filter_jj_show(stdout),
    }
}

/// The text printed: the shown output, and after a newline the hint about
/// where the full output was saved, when there is one.
pub fn display_text(shown: &str, hint: Option<String>) -> (res: String)
    ensures
        res@ == match hint {
            Some(h) => shown@ + "\n"@ + h@,
            None => shown@,
        },
{
    match hint {
        Some(h) => raw_output(shown, h.as_str()),
        None => shown.to_owned(),
    }
}

/// The error text to pass on: `jj`'s errors trimmed, when there are any.
pub fn stderr_note(stderr: &str) -> (res: Option<String>)
    ensures
        trim(stderr@).len() == 0 <==> res is None,
        res matches Some(s) ==> s@ == trim(stderr@),
{
    let t = trim_chars(&chars_of(stderr));
    if t.len() == 0 {
        None
    } else {
        Some(string_of(&t))
    }
}


// ---------------------------------------------------------------------------
// Laws
// ---------------------------------------------------------------------------

/// `jj log` always runs with a limit on the changes it shows: the user's
/// or the default one.
pub proof fn law_log_always_limited(args: Seq<Seq<char>>)
    ensures
        has_limit(command_args(JjCommand::Log, args)),
{
    let all = command_args(JjCommand::Log, args);
    if has_limit(args) {
        let i = choose|i: int| 0 <= i < args.len() && is_limit_arg(#[trigger] args[i]);
        assert(all[i + 2] == args[i]);
    } else {
        assert(all[2] == "--limit"@);
    }
}

/// The user's arguments are passed on unchanged, after the wrapper's own.
pub proof fn law_user_args_last(cmd: JjCommand, args: Seq<Seq<char>>)
    ensures
        command_args(cmd, args).len() >= args.len(),
        command_args(cmd, args).skip(command_args(cmd, args).len() - args.len()) == args,
{
    let all = command_args(cmd, args);
    assert(all.skip(all.len() - args.len()) =~= args);
}


/// A limit the user gave anywhere among the arguments, the first one
/// included, is respected: `jj log` then runs with `log`, `--no-pager` and
/// the user's arguments alone. Without one, `--limit 10` comes between.
pub proof fn law_log_limit_respected(args: Seq<Seq<char>>)
    ensures
        (exists|i: int|
            0 <= i < args.len() && (args[i] == "-n"@ || args[i] == "--limit"@ || starts_with(
                #[trigger] args[i],
                "--limit="@,
            ))) ==> command_args(JjCommand::Log, args) == seq!["log"@, "--no-pager"@] + args,
        (forall|i: int|
            0 <= i < args.len() ==> !(args[i] == "-n"@ || args[i] == "--limit"@ || starts_with(
                #[trigger] args[i],
                "--limit="@,
            ))) ==> command_args(JjCommand::Log, args) == seq![
            "log"@,
            "--no-pager"@,
            "--limit"@,
            "10"@,
        ] + args,
{
    if exists|i: int|
        0 <= i < args.len() && (args[i] == "-n"@ || args[i] == "--limit"@ || starts_with(
            #[trigger] args[i],
            "--limit="@,
        ))
    {
        let i = choose|i: int|
            0 <= i < args.len() && (args[i] == "-n"@ || args[i] == "--limit"@ || starts_with(
                #[trigger] args[i],
                "--limit="@,
            ));
        assert(is_limit_arg(args[i]));
        assert(has_limit(args));
    } else {
        assert(!has_limit(args));
        assert(default_limit() =~= seq!["--limit"@, "10"@]);
        assert(fixed_args(JjCommand::Log) + default_limit() =~= seq![
            "log"@,
            "--no-pager"@,
            "--limit"@,
            "10"@,
        ]);
    }
}


/// `jj status`, `jj diff` and `jj show` run with their own fixed
/// arguments and then exactly the user's: `status --no-pager`,
/// `diff --no-pager --git`, `show --no-pager --git`.
pub proof fn law_fixed_subcommand_args(args: Seq<Seq<char>>)
    ensures
        command_args(JjCommand::Status, args) == seq!["status"@, "--no-pager"@] + args,
        command_args(JjCommand::Diff, args) == seq!["diff"@, "--no-pager"@, "--git"@] + args,
        command_args(JjCommand::Show, args) == seq!["show"@, "--no-pager"@, "--git"@] + args,
{
}

}
