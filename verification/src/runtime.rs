use vstd::prelude::*;

use crate::text::{append_decimal, append_decimal_wide, decimal, string_views, text};

verus! {

#[derive(Clone, Copy, Debug, PartialEq, Eq, Structural)]
pub enum RuntimeMode {
    Gui,
    Cli,
}

/// What a program needs to run from an application bundle.
#[derive(Clone, Copy, Debug)]
pub struct AppRuntime {
    pub bundle_name: &'static str,
    pub executable_name: &'static str,
    pub info_plist: &'static [u8],
}

#[derive(Clone, Copy, Debug, PartialEq, Eq, Structural)]
pub enum RuntimeLaunchOutcome {
    Continue,
    Relaunched,
}

/// How to start the program again from its bundle; for the command line, where its output
/// is captured so that it can be shown afterwards.
#[derive(Clone, Debug, PartialEq, Eq)]
pub struct RelaunchCommand {
    pub program: String,
    pub args: Vec<String>,
    pub replay_stdout: Option<String>,
    pub replay_stderr: Option<String>,
}

/// Prepares a windowed program. Outside macOS no bundle is needed, so it goes on.
pub fn prepare_gui_runtime(app: &AppRuntime) -> (r: Result<RuntimeLaunchOutcome, String>)
    ensures
        r == Ok::<RuntimeLaunchOutcome, String>(RuntimeLaunchOutcome::Continue),
{
    Ok(RuntimeLaunchOutcome::Continue)
}

/// Prepares the command-line program. Outside macOS no bundle is needed, so it goes on.
pub fn prepare_cli_runtime(app: &AppRuntime, args: &[String]) -> (r: Result<
    RuntimeLaunchOutcome,
    String,
>)
    ensures
        r == Ok::<RuntimeLaunchOutcome, String>(RuntimeLaunchOutcome::Continue),
{
    Ok(RuntimeLaunchOutcome::Continue)
}

/// The arguments of `open` that relaunch the bundle: a new instance; for the command line
/// also waiting for it, its output files, and the arguments it was started with after `--args`.
pub open spec fn relaunch_args(
    mode: RuntimeMode,
    bundle_root: Seq<char>,
    args: Seq<Seq<char>>,
    stdout_path: Seq<char>,
    stderr_path: Seq<char>,
) -> Seq<Seq<char>> {
    match mode {
        RuntimeMode::Gui => seq!["-n"@, bundle_root],
        RuntimeMode::Cli => seq!["-n"@, "-W"@, "-o"@, stdout_path, "--stderr"@, stderr_path, bundle_root]
            + if args.len() == 0 {
            Seq::empty()
        } else {
            seq!["--args"@] + args
        },
    }
}

/// The command that relaunches the bundle at `bundle_root`; `stdout_path` and
/// `stderr_path` are where a relaunched command line writes its output.
pub fn build_relaunch_command(
    mode: RuntimeMode,
    bundle_root: &str,
    args: &[String],
    stdout_path: String,
    stderr_path: String,
) -> (r: RelaunchCommand)
    ensures
        r.program@ == "/usr/bin/open"@,
        string_views(r.args@) == relaunch_args(mode, bundle_root@, string_views(args@), stdout_path@, stderr_path@),
        mode == RuntimeMode::Gui ==> r.replay_stdout is None && r.replay_stderr is None,
        mode == RuntimeMode::Cli ==> r.replay_stdout == Some(stdout_path) && r.replay_stderr
            == Some(stderr_path),
{
    let mut open_args: Vec<String> = Vec::new();
    open_args.push(text("-n"));
    match mode {
        RuntimeMode::Cli => {
            open_args.push(text("-W"));
            open_args.push(text("-o"));
            open_args.push(text(stdout_path.as_str()));
            open_args.push(text("--stderr"));
            open_args.push(text(stderr_path.as_str()));
            open_args.push(text(bundle_root));
            let ghost head = string_views(open_args@);
            assert(head =~= seq!["-n"@, "-W"@, "-o"@, stdout_path@, "--stderr"@, stderr_path@, bundle_root@]);
            if args.len() > 0 {
                open_args.push(text("--args"));
                let mut i: usize = 0;
                while i < args.len()
                    invariant
                        i <= args@.len(),
                        string_views(open_args@) == head + seq!["--args"@] + string_views(args@.take(i as int)),
                    decreases args@.len() - i,
                {
                    let ghost before = string_views(open_args@);
                    open_args.push(text(args[i].as_str()));
                    i = i + 1;
                    assert(string_views(args@.take(i as int)) =~= string_views(args@.take(i - 1)).push(args@[i - 1]@));
                    assert(string_views(open_args@) =~= before.push(args@[i - 1]@));
                }
                assert(args@.take(args@.len() as int) =~= args@);
            }
            RelaunchCommand {
                program: text("/usr/bin/open"),
                args: open_args,
                replay_stdout: Some(stdout_path),
                replay_stderr: Some(stderr_path),
            }
        },
        RuntimeMode::Gui => {
            open_args.push(text(bundle_root));
            assert(string_views(open_args@) =~= seq!["-n"@, bundle_root@]);
            RelaunchCommand {
                program: text("/usr/bin/open"),
                args: open_args,
                replay_stdout: None,
                replay_stderr: None,
            }
        },
    }
}

/// `"yundrone-cli-{pid}-{stamp}-{stream}.log"`, the name of a relaunch output file.
pub open spec fn relaunch_file_name(pid: u32, stamp: u128, stream_name: Seq<char>) -> Seq<char> {
    "yundrone-cli-"@ + decimal(pid as nat) + "-"@ + decimal(stamp as nat) + "-"@ + stream_name
        + ".log"@
}

pub fn relaunch_output_file_name(pid: u32, stamp: u128, stream_name: &str) -> (r: String)
    ensures
        r@ == relaunch_file_name(pid, stamp, stream_name@),
{
    let mut out = text("yundrone-cli-");
    append_decimal(&mut out, pid as u64);
    out.append("-");
    append_decimal_wide(&mut out, stamp);
    out.append("-");
    out.append(stream_name);
    out.append(".log");
    out
}

/// Where a relaunched command line writes one of its output streams: the relaunch output
/// file for this process and moment, in the temporary directory `temp_dir`.
pub fn relaunch_output_path(temp_dir: &str, pid: u32, stamp: u128, stream_name: &str) -> (r: String)
    ensures
        r@ == path_join(temp_dir@, relaunch_file_name(pid, stamp, stream_name@)),
        r@.len() >= relaunch_file_name(pid, stamp, stream_name@).len(),
        r@.subrange(
            r@.len() - relaunch_file_name(pid, stamp, stream_name@).len(),
            r@.len() as int,
        ) == relaunch_file_name(pid, stamp, stream_name@),
{
    let name = relaunch_output_file_name(pid, stamp, stream_name);
    join_path(temp_dir, name.as_str())
}

/// The parent of a path, as `std::path::Path::parent` gives it.
pub uninterp spec fn path_parent(path: Seq<char>) -> Option<Seq<char>>;

/// A path with a name appended, as `std::path::Path::join` gives it.
pub uninterp spec fn path_join(base: Seq<char>, name: Seq<char>) -> Seq<char>;

/// Calls `std::path::Path::parent` on `path`: the path without its last component, which
/// depends on the text alone and is text again.
#[verifier::external_body]
fn parent_of(path: &str) -> (r: Option<String>)
    ensures
        match r {
            Some(p) => path_parent(path@) == Some(p@),
            None => path_parent(path@) is None,
        },
{
    std::path::Path::new(path).parent().map(|p| p.to_string_lossy().into_owned())
}

/// Calls `std::path::Path::join`: the base with the name appended, which depends on the two
/// texts alone. A relative name is appended after the base and an absolute one replaces it,
/// so the result ends with the name (on the Unix targets this crate is built for, where a
/// name is never rewritten).
#[verifier::external_body]
fn join_path(base: &str, name: &str) -> (r: String)
    ensures
        r@ == path_join(base@, name@),
        r@.len() >= name@.len(),
        r@.subrange(r@.len() - name@.len(), r@.len() as int) == name@,
{
    std::path::Path::new(base).join(name).to_string_lossy().into_owned()
}

/// Where the bundle is staged: next to the executable.
pub fn app_bundle_root(executable: &str, bundle_name: &str) -> (r: Result<String, String>)
    ensures
        match path_parent(executable@) {
            Some(parent) => r matches Ok(root) && root@ == path_join(parent, bundle_name@),
            None => r matches Err(msg) && msg@ == "missing parent directory for "@ + executable@,
        },
{
    match parent_of(executable) {
        Some(parent) => Ok(join_path(parent.as_str(), bundle_name)),
        None => {
            let mut msg = text("missing parent directory for ");
            msg.append(executable);
            Err(msg)
        },
    }
}

} // verus!
