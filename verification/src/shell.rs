//! Showing files with the desktop's own tools: which program is run to
//! reveal a path on each platform, and the errors when that fails.
use vstd::prelude::*;

use crate::backend::HostPlatform;
use crate::error::AppError;
use crate::text::{extend_str, string_of};
use crate::tui::words_view;

verus! {

/// One run of a program: its name and arguments.
#[derive(Debug, Clone)]
pub struct ProgramRun {
    pub program: String,
    pub args: Vec<String>,
}

/// The view of a program run.
pub open spec fn run_view(r: ProgramRun) -> (Seq<char>, Seq<Seq<char>>) {
    (r.program@, words_view(r.args@))
}

/// The views of program runs.
pub open spec fn runs_view(rs: Seq<ProgramRun>) -> Seq<(Seq<char>, Seq<Seq<char>>)> {
    rs.map_values(|r: ProgramRun| run_view(r))
}

/// The programs tried, in order, to reveal `target` in the file manager:
/// Explorer (selecting a file), `xdg-open` on the folder (or the file's
/// folder) and then on the path itself, or Finder (`open -R` for a file);
/// none on other platforms.
pub open spec fn reveal_runs(
    platform: HostPlatform,
    is_dir: bool,
    target: Seq<char>,
    parent: Option<Seq<char>>,
) -> Seq<(Seq<char>, Seq<Seq<char>>)> {
    match platform {
        HostPlatform::Windows => if is_dir {
            seq![("explorer.exe"@, seq![target])]
        } else {
            seq![("explorer.exe"@, seq!["/select,"@ + target])]
        },
        HostPlatform::Linux => {
            let first = if is_dir {
                target
            } else {
                match parent {
                    Some(p) => p,
                    None => target,
                }
            };
            seq![("xdg-open"@, seq![first]), ("xdg-open"@, seq![target])]
        },
        HostPlatform::MacOs => if is_dir {
            seq![("open"@, seq![target])]
        } else {
            seq![("open"@, seq!["-R"@, target])]
        },
        HostPlatform::Other => Seq::empty(),
    }
}

/// A run of `program` with one argument.
fn run_of(program: &str, arg: String) -> (r: ProgramRun)
    ensures
        run_view(r) == (program@, seq![arg@]),
{
    let mut args: Vec<String> = Vec::new();
    args.push(arg);
    let r = ProgramRun { program: program.to_owned(), args };
    assert(words_view(r.args@) =~= seq![arg@]);
    r
}

/// The programs tried, in order, to reveal `target` (a folder when `is_dir`)
/// whose folder is `parent`.
pub fn reveal_path_plan(platform: HostPlatform, is_dir: bool, target: &str, parent: Option<String>) -> (r: Vec<
    ProgramRun,
>)
    ensures
        runs_view(r@) == reveal_runs(platform, is_dir, target@, crate::model::opt_view(parent)),
{
    let mut runs: Vec<ProgramRun> = Vec::new();
    match platform {
        HostPlatform::Windows => {
            if is_dir {
                runs.push(run_of("explorer.exe", target.to_owned()));
            } else {
                let mut v: Vec<char> = Vec::new();
                extend_str(&mut v, "/select,");
                extend_str(&mut v, target);
                runs.push(run_of("explorer.exe", string_of(&v)));
            }
        },
        HostPlatform::Linux => {
            let first = if is_dir {
                target.to_owned()
            } else {
                match parent {
                    Some(p) => p,
                    None => target.to_owned(),
                }
            };
            runs.push(run_of("xdg-open", first));
            runs.push(run_of("xdg-open", target.to_owned()));
        },
        HostPlatform::MacOs => {
            if is_dir {
                runs.push(run_of("open", target.to_owned()));
            } else {
                let mut args: Vec<String> = Vec::new();
                args.push("-R".to_owned());
                args.push(target.to_owned());
                let r = ProgramRun { program: "open".to_owned(), args };
                assert(words_view(r.args@) =~= seq!["-R"@, target@]);
                runs.push(r);
            }
        },
        HostPlatform::Other => {},
    }
    assert(runs_view(runs@) =~= reveal_runs(platform, is_dir, target@, crate::model::opt_view(parent)));
    runs
}

/// The error for a path that does not exist.
pub fn missing_path_error(display: &str) -> (r: AppError)
    ensures
        r matches AppError::Message(m) && m@ == "The file or folder does not exist: "@ + display@,
{
    let mut v: Vec<char> = Vec::new();
    extend_str(&mut v, "The file or folder does not exist: ");
    extend_str(&mut v, display);
    AppError::Message(string_of(&v))
}

/// The error when no program could reveal the path: on Linux a message
/// naming the path and the first failure; elsewhere the failure itself; on
/// platforms without a file manager, a note that revealing is unsupported.
pub fn reveal_failure(platform: HostPlatform, target: &str, first_error: Option<String>) -> (r: AppError)
    ensures
        match first_error {
            None => r matches AppError::Message(m) && m@
                == "Revealing paths is not supported on this platform."@,
            Some(e) => if platform == HostPlatform::Linux {
                r matches AppError::Message(m) && m@ == "Failed to open path '"@ + target@ + "': "@ + e@
            } else {
                r matches AppError::Io(m) && m@ == e@
            },
        },
{
    match first_error {
        None => AppError::Message("Revealing paths is not supported on this platform.".to_owned()),
        Some(e) => match platform {
            HostPlatform::Linux => {
                let mut v: Vec<char> = Vec::new();
                extend_str(&mut v, "Failed to open path '");
                extend_str(&mut v, target);
                extend_str(&mut v, "': ");
                extend_str(&mut v, e.as_str());
                AppError::Message(string_of(&v))
            },
            _ => AppError::Io(e),
        },
    }
}

} // verus!
