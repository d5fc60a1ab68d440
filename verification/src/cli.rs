//! Starting the program: what its command line asks for, how it starts
//! (window or tray), the elevated helper commands, and the files and
//! registry values that make it start at login.
use vstd::prelude::*;

use crate::tui::{words_view, AutorunAction};
use crate::text::{
    chars_of, contains, contains_str, extend_str, lower_chars, lower_seq, replace_char,
    replace_char_exec, str_eq, string_of,
};

verus! {

/// How the program starts: with its window, or in the tray only.
#[derive(Debug, Clone, Copy, PartialEq, Eq, Structural)]
pub enum StartupMode {
    Gui,
    Tray,
}

/// The startup mode the arguments `args[..k]` ask for: the last of
/// `--gui`, `--tray`, `--background` and `--minimized` decides; the window
/// by default.
pub open spec fn mode_of(args: Seq<Seq<char>>) -> StartupMode
    decreases args.len(),
{
    if args.len() == 0 {
        StartupMode::Gui
    } else {
        let a = args.last();
        if a == "--gui"@ {
            StartupMode::Gui
        } else if a == "--tray"@ || a == "--background"@ || a == "--minimized"@ {
            StartupMode::Tray
        } else {
            mode_of(args.drop_last())
        }
    }
}

/// The startup mode the command-line arguments (without the program's
/// path) ask for.
pub fn startup_mode(args: &Vec<String>) -> (r: StartupMode)
    ensures
        r == mode_of(words_view(args@)),
{
    let ghost av = words_view(args@);
    let mut mode = StartupMode::Gui;
    let mut i: usize = 0;
    assert(av.take(0) =~= Seq::<Seq<char>>::empty());
    while i < args.len()
        invariant
            i <= args@.len(),
            av == words_view(args@),
            mode == mode_of(av.take(i as int)),
        decreases args.len() - i,
    {
        assert(av.take(i + 1).drop_last() =~= av.take(i as int));
        assert(av.take(i + 1).last() == args@[i as int]@);
        let a = args[i].as_str();
        if str_eq(a, "--gui") {
            mode = StartupMode::Gui;
        } else if str_eq(a, "--tray") || str_eq(a, "--background") || str_eq(a, "--minimized") {
            mode = StartupMode::Tray;
        }
        i = i + 1;
    }
    assert(av.take(i as int) =~= av);
    mode
}

/// Whether an environment value reads as "on": `1`, `true`, `yes` or `on`
/// in any ASCII case.
pub open spec fn truthy(value: Seq<char>) -> bool {
    let l = lower_seq(value);
    l == "1"@ || l == "true"@ || l == "yes"@ || l == "on"@
}

/// Whether an environment variable is set to a value that reads as "on";
/// `None` when it is unset or not valid Unicode.
pub fn truthy_env_value(value: Option<String>) -> (r: bool)
    ensures
        r == (match value {
            Some(v) => truthy(v@),
            None => false,
        }),
{
    match value {
        Some(v) => {
            let c = chars_of(v.as_str());
            let l = lower_chars(&c);
            let s = string_of(&l);
            let x = s.as_str();
            str_eq(x, "1") || str_eq(x, "true") || str_eq(x, "yes") || str_eq(x, "on")
        },
        None => false,
    }
}

/// Whether the tray icon is created: unless the user turned it off, in
/// every startup mode.
pub fn tray_enabled_for_startup(mode: StartupMode, tray_disabled: bool) -> (r: bool)
    ensures
        r == !tray_disabled,
{
    if tray_disabled {
        return false;
    }
    match mode {
        StartupMode::Tray => true,
        StartupMode::Gui => true,
    }
}

/// Whether native Wayland was asked for, by the environment or by a
/// `--wayland` or `--native-wayland` argument.
pub fn requested_wayland(env_requested: bool, args: &Vec<String>) -> (r: bool)
    ensures
        r == (env_requested || exists|k: int|
            0 <= k < args@.len() && (#[trigger] args@[k]@ == "--wayland"@ || args@[k]@
                == "--native-wayland"@)),
{
    if env_requested {
        return true;
    }
    let mut i: usize = 0;
    while i < args.len()
        invariant
            i <= args@.len(),
            forall|k: int|
                0 <= k < i ==> !(#[trigger] args@[k]@ == "--wayland"@ || args@[k]@
                    == "--native-wayland"@),
        decreases args.len() - i,
    {
        if str_eq(args[i].as_str(), "--wayland") || str_eq(args[i].as_str(), "--native-wayland") {
            return true;
        }
        i = i + 1;
    }
    false
}

/// What the program's first argument asks for before anything starts.
#[derive(Debug, Clone)]
pub enum MainRequest {
    /// Run the terminal interface with the remaining arguments.
    Tui(Vec<String>),
    /// Write the active preset's configuration and exit.
    BootSync,
    /// Report or change whether the program starts at login.
    Autorun(AutorunAction),
    /// Go on to the elevated helpers and the graphical program.
    Continue,
}

/// The autorun action the word after `--autorun` names: `enable`,
/// `disable`, else the status.
pub open spec fn autorun_action_of(args: Seq<Seq<char>>) -> AutorunAction {
    if args.len() >= 2 && args[1] == "enable"@ {
        AutorunAction::Enable
    } else if args.len() >= 2 && args[1] == "disable"@ {
        AutorunAction::Disable
    } else {
        AutorunAction::Status
    }
}

/// Reads what the program's arguments (without its path) ask for first.
pub fn main_request(args: &Vec<String>) -> (r: MainRequest)
    ensures
        args@.len() > 0 && args@[0]@ == "--tui"@ ==> (r matches MainRequest::Tui(rest) && words_view(
            rest@,
        ) == words_view(args@).skip(1)),
        args@.len() > 0 && args@[0]@ == "--boot-sync"@ ==> r is BootSync,
        args@.len() > 0 && args@[0]@ == "--autorun"@ ==> r == MainRequest::Autorun(
            autorun_action_of(words_view(args@)),
        ),
        args@.len() == 0 || (args@[0]@ != "--tui"@ && args@[0]@ != "--boot-sync"@ && args@[0]@
            != "--autorun"@) ==> r is Continue,
{
    if args.len() == 0 {
        return MainRequest::Continue;
    }
    let ghost av = words_view(args@);
    let first = args[0].as_str();
    proof {
        reveal_strlit("--tui");
        reveal_strlit("--boot-sync");
        reveal_strlit("--autorun");
        assert("--tui"@.len() != "--boot-sync"@.len());
        assert("--tui"@ != "--autorun"@) by {
            assert("--tui"@.len() != "--autorun"@.len());
        }
        assert("--boot-sync"@ != "--autorun"@) by {
            assert("--boot-sync"@.len() != "--autorun"@.len());
        }
    }
    if str_eq(first, "--tui") {
        let mut rest: Vec<String> = Vec::new();
        let mut k: usize = 1;
        while k < args.len()
            invariant
                1 <= k <= args@.len(),
                av == words_view(args@),
                words_view(rest@) == av.subrange(1, k as int),
            decreases args.len() - k,
        {
            let a = args[k].clone();
            assert(a@ == av[k as int]);
            let ghost before = words_view(rest@);
            rest.push(a);
            assert(words_view(rest@) =~= before.push(a@));
            assert(av.subrange(1, k + 1) =~= av.subrange(1, k as int).push(av[k as int]));
            k = k + 1;
        }
        assert(av.subrange(1, args@.len() as int) =~= av.skip(1));
        MainRequest::Tui(rest)
    } else if str_eq(first, "--boot-sync") {
        MainRequest::BootSync
    } else if str_eq(first, "--autorun") {
        if args.len() >= 2 {
            assert(av[1] == args@[1]@);
        }
        let action = if args.len() >= 2 && str_eq(args[1].as_str(), "enable") {
            AutorunAction::Enable
        } else if args.len() >= 2 && str_eq(args[1].as_str(), "disable") {
            AutorunAction::Disable
        } else {
            AutorunAction::Status
        };
        MainRequest::Autorun(action)
    } else {
        MainRequest::Continue
    }
}

/// An elevated helper run that the command line asks for.
#[derive(Debug, Clone)]
pub enum CliRequest {
    /// Point Equalizer APO's registry entry at this folder.
    SetConfigPath(String),
    /// Copy staged config and preset files into place.
    WriteLiveConfig {
        staged_config_path: String,
        config_txt_path: String,
        staged_preset_path: String,
        managed_preset_path: String,
    },
    /// The helper was asked for without all its arguments.
    MissingArgument,
}

/// The view of an elevated helper request.
pub ghost enum CliRequestView {
    SetConfigPath(Seq<char>),
    WriteLiveConfig(Seq<char>, Seq<char>, Seq<char>, Seq<char>),
    MissingArgument,
}

impl View for CliRequest {
    type V = CliRequestView;

    open spec fn view(&self) -> CliRequestView {
        match self {
            CliRequest::SetConfigPath(p) => CliRequestView::SetConfigPath(p@),
            CliRequest::WriteLiveConfig {
                staged_config_path,
                config_txt_path,
                staged_preset_path,
                managed_preset_path,
            } => CliRequestView::WriteLiveConfig(
                staged_config_path@,
                config_txt_path@,
                staged_preset_path@,
                managed_preset_path@,
            ),
            CliRequest::MissingArgument => CliRequestView::MissingArgument,
        }
    }
}

/// The elevated helper request the arguments ask for, if any.
pub open spec fn cli_request_of(args: Seq<Seq<char>>) -> Option<CliRequestView> {
    if args.len() == 0 {
        None
    } else if args[0] == "--elevated-set-config-path"@ {
        if args.len() >= 2 {
            Some(CliRequestView::SetConfigPath(args[1]))
        } else {
            Some(CliRequestView::MissingArgument)
        }
    } else if args[0] == "--elevated-write-live-config"@ {
        if args.len() >= 5 {
            Some(CliRequestView::WriteLiveConfig(args[1], args[2], args[3], args[4]))
        } else {
            Some(CliRequestView::MissingArgument)
        }
    } else {
        None
    }
}

/// Reads an elevated helper request from the program's arguments (without
/// its path); `None` when they ask for none.
pub fn try_handle_cli_mode(args: &Vec<String>) -> (r: Option<CliRequest>)
    ensures
        match r {
            Some(q) => cli_request_of(words_view(args@)) == Some(q@),
            None => cli_request_of(words_view(args@)) is None,
        },
{
    let ghost av = words_view(args@);
    if args.len() >= 1 {
        assert(av[0] == args@[0]@);
    }
    if args.len() >= 2 {
        assert(av[1] == args@[1]@);
    }
    if args.len() >= 5 {
        assert(av[2] == args@[2]@);
        assert(av[3] == args@[3]@);
        assert(av[4] == args@[4]@);
    }
    if args.len() == 0 {
        return None;
    }
    let command = args[0].as_str();
    proof {
        reveal_strlit("--elevated-set-config-path");
        reveal_strlit("--elevated-write-live-config");
        assert("--elevated-set-config-path"@ != "--elevated-write-live-config"@) by {
            assert("--elevated-set-config-path"@.len() != "--elevated-write-live-config"@.len());
        }
    }
    if str_eq(command, "--elevated-set-config-path") {
        if args.len() < 2 {
            return Some(CliRequest::MissingArgument);
        }
        Some(CliRequest::SetConfigPath(args[1].clone()))
    } else if str_eq(command, "--elevated-write-live-config") {
        if args.len() < 5 {
            return Some(CliRequest::MissingArgument);
        }
        Some(
            CliRequest::WriteLiveConfig {
                staged_config_path: args[1].clone(),
                config_txt_path: args[2].clone(),
                staged_preset_path: args[3].clone(),
                managed_preset_path: args[4].clone(),
            },
        )
    } else {
        None
    }
}

/// The exit code of an elevated helper run: 0 when it succeeded.
pub fn helper_exit_code(succeeded: bool) -> (r: i32)
    ensures
        r == (if succeeded {
            0i32
        } else {
            1i32
        }),
{
    if succeeded {
        0
    } else {
        1
    }
}

/// A path quoted for the `Exec` line of a desktop entry: backslashes
/// doubled, double quotes escaped, the whole in double quotes.
pub open spec fn quoted_exec(path: Seq<char>) -> Seq<char> {
    "\""@ + replace_char(replace_char(path, '\\', "\\\\"@), '"', "\\\""@) + "\""@
}

/// Quotes a path for the `Exec` line of a desktop entry.
pub fn quote_exec_path(path: &str) -> (r: String)
    ensures
        r@ == quoted_exec(path@),
{
    let v = chars_of(path);
    let a = replace_char_exec(&v, '\\', "\\\\");
    let b = replace_char_exec(&a, '"', "\\\"");
    let mut out: Vec<char> = Vec::new();
    extend_str(&mut out, "\"");
    crate::text::extend_chars(&mut out, &b);
    extend_str(&mut out, "\"");
    string_of(&out)
}

/// The name of the user service that synchronises at boot.
pub fn service_name() -> (r: &'static str)
    ensures
        r@ == "smart-eq-preset-switcher"@,
{
    "smart-eq-preset-switcher"
}

/// The desktop entry that starts the program in the tray at login.
pub open spec fn desktop_entry(quoted_exe: Seq<char>) -> Seq<char> {
    "[Desktop Entry]\nType=Application\nName=SmartEQPresetSwitcher\nComment=Start SmartEQPresetSwitcher at login\nExec="@
        + quoted_exe
        + " --tray\nHidden=false\nX-GNOME-Autostart-enabled=true\nNoDisplay=true\n"@
}

/// The desktop entry that starts the program in the tray at login.
pub fn autostart_desktop_entry(quoted_exe: &str) -> (r: String)
    ensures
        r@ == desktop_entry(quoted_exe@),
{
    let mut v: Vec<char> = Vec::new();
    extend_str(
        &mut v,
        "[Desktop Entry]\nType=Application\nName=SmartEQPresetSwitcher\nComment=Start SmartEQPresetSwitcher at login\nExec=",
    );
    extend_str(&mut v, quoted_exe);
    extend_str(&mut v, " --tray\nHidden=false\nX-GNOME-Autostart-enabled=true\nNoDisplay=true\n");
    string_of(&v)
}

/// The user service that synchronises the active preset at boot.
pub open spec fn boot_sync_unit(quoted_exe: Seq<char>) -> Seq<char> {
    "[Unit]\nDescription=SmartEQPresetSwitcher Boot Sync\n\n[Service]\nExecStart="@ + quoted_exe
        + " --boot-sync\nRestart=no\n\n[Install]\nWantedBy=default.target\n"@
}

/// The user service that synchronises the active preset at boot.
pub fn boot_sync_service_unit(quoted_exe: &str) -> (r: String)
    ensures
        r@ == boot_sync_unit(quoted_exe@),
{
    let mut v: Vec<char> = Vec::new();
    extend_str(&mut v, "[Unit]\nDescription=SmartEQPresetSwitcher Boot Sync\n\n[Service]\nExecStart=");
    extend_str(&mut v, quoted_exe);
    extend_str(&mut v, " --boot-sync\nRestart=no\n\n[Install]\nWantedBy=default.target\n");
    string_of(&v)
}

/// Whether autorun is on for Linux: the desktop entry exists and, when
/// `systemctl` could be asked, the service is enabled; otherwise whether the
/// service file exists.
pub fn linux_autorun_status(desktop_exists: bool, service_enabled: Option<bool>, service_exists: bool) -> (r:
    bool)
    ensures
        r == (desktop_exists && match service_enabled {
            Some(e) => e,
            None => service_exists,
        }),
{
    if !desktop_exists {
        return false;
    }
    match service_enabled {
        Some(e) => e,
        None => service_exists,
    }
}

/// The name of the program's value under the Windows `Run` key: the
/// executable's stem, or a fixed name when it has none.
pub fn run_value_name(exe_stem: Option<String>) -> (r: String)
    ensures
        r@ == (match exe_stem {
            Some(s) => s@,
            None => "smart_eq_preset_switcher"@,
        }),
{
    match exe_stem {
        Some(s) => s,
        None => "smart_eq_preset_switcher".to_owned(),
    }
}

/// The command the Windows `Run` key holds: the executable in quotes,
/// started in the tray.
pub fn run_key_command(exe: &str) -> (r: String)
    ensures
        r@ == "\""@ + exe@ + "\" --tray"@,
{
    let mut v: Vec<char> = Vec::new();
    extend_str(&mut v, "\"");
    extend_str(&mut v, exe);
    extend_str(&mut v, "\" --tray");
    string_of(&v)
}

/// Whether a `Run` value starts this executable.
pub fn run_value_matches(value: &str, exe: &str) -> (r: bool)
    ensures
        r == contains(value@, exe@),
{
    let v = chars_of(value);
    contains_str(&v, exe)
}

/// The `Run` value that enabling autorun writes is recognised as starting
/// this executable when autorun's status is read back.
pub proof fn lemma_run_value_reads_back(exe: Seq<char>)
    ensures
        contains("\""@ + exe + "\" --tray"@, exe),
{
    reveal_strlit("\"");
    let v = "\""@ + exe + "\" --tray"@;
    assert(v.subrange(1, 1 + exe.len() as int) =~= exe);
    assert(crate::text::occurs_at(v, exe, 1));
}

/// The arguments of the elevated helper run that points Equalizer APO's
/// registry entry at `path`.
pub fn set_config_path_helper_arguments(path: &str) -> (r: Vec<String>)
    ensures
        words_view(r@) == seq!["--elevated-set-config-path"@, path@],
{
    let mut r: Vec<String> = Vec::new();
    r.push("--elevated-set-config-path".to_owned());
    r.push(path.to_owned());
    assert(words_view(r@) =~= seq!["--elevated-set-config-path"@, path@]);
    r
}

/// The arguments of the elevated helper run that copies staged config and
/// preset files into place.
pub fn write_live_config_helper_arguments(
    staged_config_path: &str,
    config_txt_path: &str,
    staged_preset_path: &str,
    managed_preset_path: &str,
) -> (r: Vec<String>)
    ensures
        words_view(r@) == seq![
            "--elevated-write-live-config"@,
            staged_config_path@,
            config_txt_path@,
            staged_preset_path@,
            managed_preset_path@,
        ],
{
    let mut r: Vec<String> = Vec::new();
    r.push("--elevated-write-live-config".to_owned());
    r.push(staged_config_path.to_owned());
    r.push(config_txt_path.to_owned());
    r.push(staged_preset_path.to_owned());
    r.push(managed_preset_path.to_owned());
    assert(words_view(r@) =~= seq![
        "--elevated-write-live-config"@,
        staged_config_path@,
        config_txt_path@,
        staged_preset_path@,
        managed_preset_path@,
    ]);
    r
}

/// The text of the dialog that offers to move Equalizer APO's config folder
/// to the writable default.
pub fn config_migration_prompt(default_path: &str) -> (r: String)
    ensures
        r@ == "Equalizer APO is currently configured to use a protected config folder.\n\nSmartEQPresetSwitcher works best with a writable config path:\n"@
            + default_path@
            + "\n\nLet the app switch Equalizer APO to that location now?"@,
{
    let mut v: Vec<char> = Vec::new();
    extend_str(
        &mut v,
        "Equalizer APO is currently configured to use a protected config folder.\n\nSmartEQPresetSwitcher works best with a writable config path:\n",
    );
    extend_str(&mut v, default_path);
    extend_str(&mut v, "\n\nLet the app switch Equalizer APO to that location now?");
    string_of(&v)
}

/// The text of the dialog shown when moving the config folder failed.
pub fn config_change_failed_text(error_text: &str) -> (r: String)
    ensures
        r@ == "The config path was not changed.\n\n"@ + error_text@
            + "\n\nYou can try again later from the main window."@,
{
    let mut v: Vec<char> = Vec::new();
    extend_str(&mut v, "The config path was not changed.\n\n");
    extend_str(&mut v, error_text);
    extend_str(&mut v, "\n\nYou can try again later from the main window.");
    string_of(&v)
}


/// The helper arguments built for a request are read back as that request:
/// the registry helper's for its path, and the live-config helper's for its
/// four paths.
pub proof fn lemma_helper_arguments_round_trip(
    path: Seq<char>,
    staged_config: Seq<char>,
    config_txt: Seq<char>,
    staged_preset: Seq<char>,
    managed_preset: Seq<char>,
)
    ensures
        cli_request_of(seq!["--elevated-set-config-path"@, path]) == Some(
            CliRequestView::SetConfigPath(path),
        ),
        cli_request_of(
            seq![
                "--elevated-write-live-config"@,
                staged_config,
                config_txt,
                staged_preset,
                managed_preset,
            ],
        ) == Some(
            CliRequestView::WriteLiveConfig(staged_config, config_txt, staged_preset, managed_preset),
        ),
{
    reveal_strlit("--elevated-set-config-path");
    reveal_strlit("--elevated-write-live-config");
    assert("--elevated-write-live-config"@ != "--elevated-set-config-path"@) by {
        assert("--elevated-set-config-path"@.len() != "--elevated-write-live-config"@.len());
    }
}


/// The autostart entry starts this executable in the tray, and the boot
/// service runs it in boot-sync mode: each holds the line that does so.
pub proof fn lemma_autostart_lines(quoted_exe: Seq<char>)
    ensures
        contains(desktop_entry(quoted_exe), "Exec="@ + quoted_exe + " --tray\n"@),
        contains(boot_sync_unit(quoted_exe), "ExecStart="@ + quoted_exe + " --boot-sync\n"@),
{
    reveal_strlit("[Desktop Entry]\nType=Application\nName=SmartEQPresetSwitcher\nComment=Start SmartEQPresetSwitcher at login\nExec=");
    reveal_strlit(" --tray\nHidden=false\nX-GNOME-Autostart-enabled=true\nNoDisplay=true\n");
    reveal_strlit("[Unit]\nDescription=SmartEQPresetSwitcher Boot Sync\n\n[Service]\nExecStart=");
    reveal_strlit(" --boot-sync\nRestart=no\n\n[Install]\nWantedBy=default.target\n");
    reveal_strlit("Exec=");
    reveal_strlit(" --tray\n");
    reveal_strlit("ExecStart=");
    reveal_strlit(" --boot-sync\n");
    let e1 = "Exec="@ + quoted_exe + " --tray\n"@;
    let d = desktop_entry(quoted_exe);
    assert(d.subrange(105, 105 + e1.len() as int) =~= e1);
    assert(crate::text::occurs_at(d, e1, 105));
    let e2 = "ExecStart="@ + quoted_exe + " --boot-sync\n"@;
    let b = boot_sync_unit(quoted_exe);
    assert(b.subrange(62, 62 + e2.len() as int) =~= e2);
    assert(crate::text::occurs_at(b, e2, 62));
}

} // verus!
