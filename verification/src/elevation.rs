//! Running commands with administrator rights on Windows: the PowerShell
//! command lines, how a failed elevated run is classified, and the Equalizer
//! APO installer's arguments and log.
use vstd::prelude::*;

use crate::error::{error_text, AppError};
use crate::text::{
    chars_of, contains, contains_str, extend_chars, extend_str, join, lines, lines_exec,
    lower_chars, lower_seq, push_signed_decimal, replace_char, replace_char_exec,
    signed_decimal, string_of, trim, trim_chars, trim_str,
};

verus! {

/// What `str::to_lowercase` returns for this text (full Unicode case
/// mapping).
pub uninterp spec fn unicode_lowercase(text: Seq<char>) -> Seq<char>;

/// Whether every character of `text` is ASCII.
pub open spec fn is_ascii_text(text: Seq<char>) -> bool {
    forall|i: int| 0 <= i < text.len() ==> (text[i] as u32) < 128
}

/// Lower-cases text with `str::to_lowercase`. The contract names the
/// result and states what std documents for ASCII text: `A`–`Z` become
/// `a`–`z` and every other character stays. What the Unicode case mapping
/// does to other characters is not stated.
#[verifier::external_body]
fn to_lowercase(text: &str) -> (r: String)
    ensures
        r@ == unicode_lowercase(text@),
        is_ascii_text(text@) ==> r@ == lower_seq(text@),
{
    text.to_lowercase()
}

/// `value` with every `'` doubled, as a PowerShell single-quoted string
/// needs it.
pub open spec fn powershell_escaped(value: Seq<char>) -> Seq<char> {
    replace_char(value, '\'', "''"@)
}

/// Escapes `value` for a PowerShell single-quoted string.
pub fn escape_for_powershell(value: &str) -> (r: String)
    ensures
        r@ == powershell_escaped(value@),
{
    let v = chars_of(value);
    let out = replace_char_exec(&v, '\'', "''");
    string_of(&out)
}

/// The text a shell printed: its trimmed standard error, then its trimmed
/// standard output, on separate lines; `None` when both are blank.
pub open spec fn shell_output(stdout: Seq<char>, stderr: Seq<char>) -> Option<Seq<char>> {
    let e = trim(stderr);
    let o = trim(stdout);
    if e.len() == 0 && o.len() == 0 {
        None
    } else if e.len() == 0 {
        Some(o)
    } else if o.len() == 0 {
        Some(e)
    } else {
        Some(e + "\n"@ + o)
    }
}

/// Combines what a shell printed on its two streams.
pub fn combine_shell_output(stdout: &str, stderr: &str) -> (r: Option<String>)
    ensures
        r is Some == shell_output(stdout@, stderr@) is Some,
        r is Some ==> r->0@ == shell_output(stdout@, stderr@)->0,
{
    let e = trim_str(stderr);
    let o = trim_str(stdout);
    if e.as_str().is_empty() && o.as_str().is_empty() {
        None
    } else if e.as_str().is_empty() {
        Some(o)
    } else if o.as_str().is_empty() {
        Some(e)
    } else {
        let mut v: Vec<char> = Vec::new();
        extend_str(&mut v, e.as_str());
        extend_str(&mut v, "\n");
        extend_str(&mut v, o.as_str());
        Some(string_of(&v))
    }
}

/// Whether (lower-cased) shell output says that the user cancelled the
/// elevation prompt.
pub open spec fn mentions_cancellation(text: Seq<char>) -> bool {
    contains(text, "canceled by the user"@) || contains(text, "cancelled by the user"@)
        || contains(text, "operation was canceled"@) || contains(text, "operation was cancelled"@)
}

/// Whether an elevated run ended because the user declined the prompt: exit
/// code 1223, or output that says so in any ASCII case.
pub open spec fn user_declined(exit_code: Option<i32>, stdout: Seq<char>, stderr: Seq<char>) -> bool {
    exit_code == Some(1223i32) || mentions_cancellation(lower_seq(stderr + "\n"@ + stdout))
}

/// Whether an elevated run ended because the user declined the prompt.
pub fn is_user_declined_elevation(exit_code: Option<i32>, stdout: &str, stderr: &str) -> (r: bool)
    ensures
        r == user_declined(exit_code, stdout@, stderr@),
{
    if exit_code == Some(1223i32) {
        return true;
    }
    let mut v: Vec<char> = Vec::new();
    extend_str(&mut v, stderr);
    extend_str(&mut v, "\n");
    extend_str(&mut v, stdout);
    assert(v@ =~= stderr@ + "\n"@ + stdout@);
    let lowered = lower_chars(&v);
    contains_str(&lowered, "canceled by the user") || contains_str(&lowered, "cancelled by the user")
        || contains_str(&lowered, "operation was canceled") || contains_str(
        &lowered,
        "operation was cancelled",
    )
}

/// The error for a failed elevated run: declined, else what the shell
/// printed, else `fallback_message`.
pub fn classify_elevation_failure(
    exit_code: Option<i32>,
    stdout: &str,
    stderr: &str,
    fallback_message: String,
) -> (r: AppError)
    ensures
        user_declined(exit_code, stdout@, stderr@) ==> r is ElevationDeclined,
        !user_declined(exit_code, stdout@, stderr@) && shell_output(stdout@, stderr@) is Some ==> (
        r matches AppError::Message(m) && m@ == shell_output(stdout@, stderr@)->0),
        !user_declined(exit_code, stdout@, stderr@) && shell_output(stdout@, stderr@) is None ==> (
        r matches AppError::Message(m) && m@ == fallback_message@),
{
    if is_user_declined_elevation(exit_code, stdout, stderr) {
        return AppError::ElevationDeclined;
    }
    match combine_shell_output(stdout, stderr) {
        Some(message) => AppError::Message(message),
        None => AppError::Message(fallback_message),
    }
}

/// Whether (lower-cased) error text says that `pwsh.exe` could not be found.
pub open spec fn pwsh_missing(text: Seq<char>) -> bool {
    contains(text, "pwsh.exe"@) && (contains(text, "cannot find"@) || contains(text, "does not exist"@)
        || contains(text, "not recognized"@))
}

/// Whether a failed installer run should be retried with Windows PowerShell:
/// only when its error says that PowerShell 7 (`pwsh.exe`) is missing.
pub fn should_retry_with_windows_powershell(error: &AppError) -> (r: bool)
    ensures
        r == pwsh_missing(unicode_lowercase(error_text(*error))),
        is_ascii_text(error_text(*error)) ==> r == pwsh_missing(lower_seq(error_text(*error))),
{
    let text = error.message();
    let lowered = to_lowercase(text.as_str());
    let v = chars_of(lowered.as_str());
    contains_str(&v, "pwsh.exe") && (contains_str(&v, "cannot find") || contains_str(
        &v,
        "does not exist",
    ) || contains_str(&v, "not recognized"))
}

/// One argument of `Start-Process -ArgumentList`: escaped, in double quotes,
/// in single quotes.
pub open spec fn quoted_argument(value: Seq<char>) -> Seq<char> {
    "'\""@ + powershell_escaped(value) + "\"'"@
}

/// The PowerShell command that starts `file_path` elevated with `arguments`,
/// waits for it and exits with its exit code.
pub open spec fn start_process_command(file_path: Seq<char>, arguments: Seq<Seq<char>>) -> Seq<char> {
    "$process = Start-Process -FilePath '"@ + powershell_escaped(file_path) + "' -ArgumentList @("@
        + join(arguments.map_values(|a: Seq<char>| quoted_argument(a)), ", "@)
        + ") -Verb RunAs -Wait -PassThru -ErrorAction Stop; exit $process.ExitCode"@
}

/// Builds the PowerShell command that runs `file_path` elevated.
pub fn elevated_start_process_command(file_path: &str, arguments: &Vec<String>) -> (r: String)
    ensures
        r@ == start_process_command(file_path@, arguments@.map_values(|a: String| a@)),
{
    let ghost av = arguments@.map_values(|a: String| a@);
    let ghost qv = av.map_values(|a: Seq<char>| quoted_argument(a));
    let mut quoted: Vec<Vec<char>> = Vec::new();
    let mut i: usize = 0;
    while i < arguments.len()
        invariant
            i <= arguments.len(),
            av == arguments@.map_values(|a: String| a@),
            qv == av.map_values(|a: Seq<char>| quoted_argument(a)),
            quoted@.len() == i,
            forall|k: int| 0 <= k < i ==> #[trigger] quoted@[k]@ == qv[k],
        decreases arguments.len() - i,
    {
        let mut q: Vec<char> = Vec::new();
        extend_str(&mut q, "'\"");
        let escaped = escape_for_powershell(arguments[i].as_str());
        extend_str(&mut q, escaped.as_str());
        extend_str(&mut q, "\"'");
        assert(q@ =~= qv[i as int]);
        quoted.push(q);
        i = i + 1;
    }
    assert(quoted@.map_values(|p: Vec<char>| p@) =~= qv);
    let joined = crate::text::join_exec(&quoted, ", ");
    let mut v: Vec<char> = Vec::new();
    extend_str(&mut v, "$process = Start-Process -FilePath '");
    let escaped_file = escape_for_powershell(file_path);
    extend_str(&mut v, escaped_file.as_str());
    extend_str(&mut v, "' -ArgumentList @(");
    extend_chars(&mut v, &joined);
    extend_str(&mut v, ") -Verb RunAs -Wait -PassThru -ErrorAction Stop; exit $process.ExitCode");
    assert(v@ =~= start_process_command(file_path@, av));
    string_of(&v)
}

/// The PowerShell command that starts the Device Selector elevated in its
/// install folder.
pub open spec fn device_selector_command(selector: Seq<char>, working_directory: Seq<char>) -> Seq<char> {
    "Start-Process -FilePath '"@ + powershell_escaped(selector) + "' -WorkingDirectory '"@
        + powershell_escaped(working_directory) + "' -Verb RunAs -ErrorAction Stop"@
}

/// Builds the PowerShell command that starts the Device Selector.
pub fn device_selector_start_command(selector: &str, working_directory: &str) -> (r: String)
    ensures
        r@ == device_selector_command(selector@, working_directory@),
{
    let mut v: Vec<char> = Vec::new();
    extend_str(&mut v, "Start-Process -FilePath '");
    let s = escape_for_powershell(selector);
    extend_str(&mut v, s.as_str());
    extend_str(&mut v, "' -WorkingDirectory '");
    let w = escape_for_powershell(working_directory);
    extend_str(&mut v, w.as_str());
    extend_str(&mut v, "' -Verb RunAs -ErrorAction Stop");
    string_of(&v)
}

/// The arguments every PowerShell run gets before its command.
pub open spec fn shell_arguments(command: Seq<char>) -> Seq<Seq<char>> {
    seq!["-NoProfile"@, "-NonInteractive"@, "-ExecutionPolicy"@, "Bypass"@, "-Command"@, command]
}

/// The arguments of a non-interactive PowerShell run of `command`.
pub fn powershell_arguments(command: &str) -> (r: Vec<String>)
    ensures
        r@.map_values(|a: String| a@) == shell_arguments(command@),
{
    let mut r: Vec<String> = Vec::new();
    r.push("-NoProfile".to_owned());
    r.push("-NonInteractive".to_owned());
    r.push("-ExecutionPolicy".to_owned());
    r.push("Bypass".to_owned());
    r.push("-Command".to_owned());
    r.push(command.to_owned());
    assert(r@.map_values(|a: String| a@) =~= shell_arguments(command@));
    r
}

/// The shells an elevated command is tried with, in order.
pub fn elevation_shells() -> (r: Vec<String>)
    ensures
        r@.map_values(|a: String| a@) == seq!["pwsh.exe"@, "powershell.exe"@],
{
    let mut r: Vec<String> = Vec::new();
    r.push("pwsh.exe".to_owned());
    r.push("powershell.exe".to_owned());
    assert(r@.map_values(|a: String| a@) =~= seq!["pwsh.exe"@, "powershell.exe"@]);
    r
}

/// The exit code as the failure message shows it.
pub open spec fn exit_code_text(code: Option<i32>) -> Seq<char> {
    match code {
        Some(c) => signed_decimal(c as int),
        None => "unknown"@,
    }
}

/// The message for an elevated command that exited unsuccessfully without
/// printing anything.
pub fn elevated_exit_message(file_display: &str, code: Option<i32>) -> (r: String)
    ensures
        r@ == "The elevated PowerShell command '"@ + file_display@ + "' exited with code "@
            + exit_code_text(code) + "."@,
{
    let mut v: Vec<char> = Vec::new();
    extend_str(&mut v, "The elevated PowerShell command '");
    extend_str(&mut v, file_display);
    extend_str(&mut v, "' exited with code ");
    match code {
        Some(c) => push_signed_decimal(&mut v, c as i64),
        None => extend_str(&mut v, "unknown"),
    }
    extend_str(&mut v, ".");
    string_of(&v)
}

/// The message for a Device Selector launch that failed without output.
pub fn device_selector_failure_message(selector_display: &str) -> (r: String)
    ensures
        r@ == "Failed to launch Device Selector from '"@ + selector_display@ + "'."@,
{
    let mut v: Vec<char> = Vec::new();
    extend_str(&mut v, "Failed to launch Device Selector from '");
    extend_str(&mut v, selector_display);
    extend_str(&mut v, "'.");
    string_of(&v)
}

/// How one attempt to run an elevated command through a shell ended.
#[derive(Debug, Clone)]
pub enum ShellOutcome {
    /// The shell ran and exited.
    Finished { success: bool, code: Option<i32>, stdout: String, stderr: String },
    /// The shell could not be started; the error's text.
    NotStarted(String),
}

/// What one shell attempt decides: `None` means "try the next shell"; a
/// shell that ran decides the result, success or the classified failure.
pub fn elevated_shell_result(fallback_message: String, outcome: &ShellOutcome) -> (r: Option<
    Result<(), AppError>,
>)
    ensures
        match outcome {
            ShellOutcome::NotStarted(_) => r is None,
            ShellOutcome::Finished { success, code, stdout, stderr } => if *success {
                r == Some(Ok::<(), AppError>(()))
            } else {
                r matches Some(Err(e)) && (if user_declined(*code, trim(stdout@), trim(stderr@)) {
                    e is ElevationDeclined
                } else if shell_output(trim(stdout@), trim(stderr@)) is Some {
                    e matches AppError::Message(m) && m@ == shell_output(
                        trim(stdout@),
                        trim(stderr@),
                    )->0
                } else {
                    e matches AppError::Message(m) && m@ == fallback_message@
                })
            },
        },
{
    match outcome {
        ShellOutcome::NotStarted(_) => None,
        ShellOutcome::Finished { success, code, stdout, stderr } => {
            if *success {
                Some(Ok(()))
            } else {
                let o = trim_str(stdout.as_str());
                let e = trim_str(stderr.as_str());
                Some(Err(classify_elevation_failure(*code, o.as_str(), e.as_str(), fallback_message)))
            }
        },
    }
}

/// The error when no shell could be started: the last start failure, or a
/// plain message when there was none.
pub fn no_shell_started(last_error: Option<String>) -> (r: AppError)
    ensures
        match last_error {
            Some(e) => r matches AppError::Io(m) && m@ == e@,
            None => r matches AppError::Message(m) && m@
                == "Unable to start an elevated PowerShell shell."@,
        },
{
    match last_error {
        Some(e) => AppError::Io(e),
        None => AppError::Message("Unable to start an elevated PowerShell shell.".to_owned()),
    }
}

/// The arguments the installer script is run with.
pub open spec fn installer_argument_list(script: Seq<char>, log: Seq<char>) -> Seq<Seq<char>> {
    seq!["-NoProfile"@, "-NonInteractive"@, "-ExecutionPolicy"@, "Bypass"@, "-File"@, script, "-LogPath"@, log]
}

/// The arguments of an elevated run of the installer script that logs to
/// `log_path`.
pub fn installer_arguments(script_path: &str, log_path: &str) -> (r: Vec<String>)
    ensures
        r@.map_values(|a: String| a@) == installer_argument_list(script_path@, log_path@),
{
    let mut r: Vec<String> = Vec::new();
    r.push("-NoProfile".to_owned());
    r.push("-NonInteractive".to_owned());
    r.push("-ExecutionPolicy".to_owned());
    r.push("Bypass".to_owned());
    r.push("-File".to_owned());
    r.push(script_path.to_owned());
    r.push("-LogPath".to_owned());
    r.push(log_path.to_owned());
    assert(r@.map_values(|a: String| a@) =~= installer_argument_list(script_path@, log_path@));
    r
}

/// The trimmed, non-blank lines among `ls`, in order.
pub open spec fn log_entries(ls: Seq<Seq<char>>) -> Seq<Seq<char>>
    decreases ls.len(),
{
    if ls.len() == 0 {
        Seq::empty()
    } else if trim(ls.last()).len() > 0 {
        log_entries(ls.drop_last()).push(trim(ls.last()))
    } else {
        log_entries(ls.drop_last())
    }
}

/// The trimmed, non-blank lines of an installer log.
fn log_entries_exec(content: &str) -> (r: Vec<Vec<char>>)
    ensures
        r@.map_values(|l: Vec<char>| l@) == log_entries(lines(content@)),
{
    let v = chars_of(content);
    let ls = lines_exec(&v);
    let ghost lv = lines(content@);
    let mut r: Vec<Vec<char>> = Vec::new();
    let mut i: usize = 0;
    while i < ls.len()
        invariant
            i <= ls@.len() == lv.len(),
            lv == lines(content@),
            forall|j: int| 0 <= j < ls@.len() ==> #[trigger] ls@[j]@ == lv[j],
            r@.map_values(|l: Vec<char>| l@) == log_entries(lv.take(i as int)),
        decreases ls.len() - i,
    {
        assert(lv.take(i + 1).drop_last() =~= lv.take(i as int));
        assert(lv.take(i + 1).last() == ls@[i as int]@);
        let t = trim_chars(&ls[i]);
        if t.len() > 0 {
            r.push(t);
        }
        i = i + 1;
        assert(r@.map_values(|l: Vec<char>| l@) =~= log_entries(lv.take(i as int)));
    }
    assert(lv.take(lv.len() as int) =~= lv);
    r
}

/// The installer log's lines as they are copied into the app's log.
pub fn installer_log_lines(content: &str) -> (r: Vec<String>)
    ensures
        r@.map_values(|l: String| l@) == log_entries(lines(content@)).map_values(
            |l: Seq<char>| "[Installer] "@ + l,
        ),
{
    let entries = log_entries_exec(content);
    let ghost ev = entries@.map_values(|l: Vec<char>| l@);
    let mut r: Vec<String> = Vec::new();
    let mut i: usize = 0;
    while i < entries.len()
        invariant
            i <= entries@.len(),
            ev == entries@.map_values(|l: Vec<char>| l@),
            r@.len() == i,
            forall|k: int| 0 <= k < i ==> #[trigger] r@[k]@ == "[Installer] "@ + ev[k],
        decreases entries.len() - i,
    {
        let mut v: Vec<char> = Vec::new();
        extend_str(&mut v, "[Installer] ");
        extend_chars(&mut v, &entries[i]);
        r.push(string_of(&v));
        i = i + 1;
    }
    assert(r@.map_values(|l: String| l@) =~= ev.map_values(|l: Seq<char>| "[Installer] "@ + l));
    r
}

/// The last non-blank line of an installer log, trimmed.
pub fn installer_log_summary(content: &str) -> (r: Option<String>)
    ensures
        r is Some == (log_entries(lines(content@)).len() > 0),
        r is Some ==> r->0@ == log_entries(lines(content@)).last(),
{
    let entries = log_entries_exec(content);
    if entries.len() == 0 {
        None
    } else {
        Some(string_of(&entries[entries.len() - 1]))
    }
}

/// The error for a failed installer run: the log's last line, or the run's
/// own error when the log has none.
pub fn install_failure(summary: Option<String>, error: &AppError) -> (r: (String, AppError))
    ensures
        r.0@ == "Equalizer APO install failed: "@ + (match summary {
            Some(s) => s@,
            None => error_text(*error),
        }),
        r.1 matches AppError::Message(m) && m@ == r.0@ + ". Open Logs for the full installer output."@,
{
    let mut v: Vec<char> = Vec::new();
    extend_str(&mut v, "Equalizer APO install failed: ");
    match summary {
        Some(s) => extend_str(&mut v, s.as_str()),
        None => {
            let t = error.message();
            extend_str(&mut v, t.as_str());
        },
    }
    let logged = string_of(&v);
    extend_str(&mut v, ". Open Logs for the full installer output.");
    (logged, AppError::Message(string_of(&v)))
}

/// Whether `c` separates path components on Windows.
pub open spec fn is_windows_separator(c: char) -> bool {
    c == '\\' || c == '/'
}

/// `dir` joined with the relative name `file` as a Windows path: a `\` goes
/// between them unless `dir` is empty, ends with a separator or is a bare
/// drive such as `C:`.
pub open spec fn windows_join(dir: Seq<char>, file: Seq<char>) -> Seq<char> {
    if dir.len() == 0 || is_windows_separator(dir.last()) || (dir.len() == 2 && dir[1] == ':') {
        dir + file
    } else {
        dir + "\\"@ + file
    }
}

/// The path of `DeviceSelector.exe` in an Equalizer APO install folder.
pub fn selector_path_from_install_path(install_path: &str) -> (r: String)
    ensures
        r@ == windows_join(install_path@, "DeviceSelector.exe"@),
{
    let v = chars_of(install_path);
    let mut out: Vec<char> = Vec::new();
    extend_chars(&mut out, &v);
    let n = v.len();
    proof {
        reveal_strlit("\\");
    }
    if !(n == 0 || v[n - 1] == '\\' || v[n - 1] == '/' || (n == 2 && v[1] == ':')) {
        out.push('\\');
        assert(out@ =~= install_path@ + "\\"@);
    }
    extend_str(&mut out, "DeviceSelector.exe");
    string_of(&out)
}

/// The error for a Device Selector that is not where the install says.
pub fn selector_path_error(selector_display: &str) -> (r: AppError)
    ensures
        r matches AppError::Message(m) && m@ == "Device Selector was not found at '"@
            + selector_display@ + "'. Reinstall Equalizer APO to repair the install."@,
{
    let mut v: Vec<char> = Vec::new();
    extend_str(&mut v, "Device Selector was not found at '");
    extend_str(&mut v, selector_display);
    extend_str(&mut v, "'. Reinstall Equalizer APO to repair the install.");
    AppError::Message(string_of(&v))
}

} // verus!
