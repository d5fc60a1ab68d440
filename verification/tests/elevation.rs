use smart_eq_preset_switcher::elevation::{
    classify_elevation_failure, combine_shell_output, device_selector_start_command,
    elevated_exit_message, elevated_shell_result, elevated_start_process_command,
    elevation_shells, escape_for_powershell, install_failure, installer_arguments,
    installer_log_lines, installer_log_summary, is_user_declined_elevation, no_shell_started,
    powershell_arguments, selector_path_error, selector_path_from_install_path,
    should_retry_with_windows_powershell, ShellOutcome,
};
use smart_eq_preset_switcher::error::AppError;

#[test]
fn selector_path_from_install_path_should_point_to_device_selector_exe() {
    let install_path = r"C:\Program Files\EqualizerAPO";

    let selector_path = selector_path_from_install_path(install_path);

    assert_eq!(
        selector_path,
        r"C:\Program Files\EqualizerAPO\DeviceSelector.exe".to_string()
    );
}

#[test]
fn should_retry_with_windows_powershell_only_when_pwsh_is_missing() {
    let error = AppError::Message(
        "The elevated PowerShell command 'pwsh.exe' exited with code 1. The system cannot find the file specified.".to_string(),
    );

    assert!(should_retry_with_windows_powershell(&error));
}

#[test]
fn should_not_retry_windows_powershell_for_installer_failures() {
    let error = AppError::Message("Equalizer APO installer exited with code 1603.".to_string());

    assert!(!should_retry_with_windows_powershell(&error));
}

#[test]
fn classify_elevation_failure_should_preserve_stderr() {
    let error = classify_elevation_failure(
        Some(1),
        "",
        "Start-Process failed with an unexpected error.",
        "fallback".to_string(),
    );

    match error {
        AppError::Message(message) => {
            assert_eq!(message, "Start-Process failed with an unexpected error.");
        }
        other => panic!("expected message error, got {other:?}"),
    }
}

#[test]
fn classify_elevation_failure_should_treat_cancelled_prompt_as_declined() {
    let error = classify_elevation_failure(
        Some(1),
        "",
        "The operation was canceled by the user.",
        "fallback".to_string(),
    );

    assert!(matches!(error, AppError::ElevationDeclined));
}

#[test]
fn retry_decision_lowercases_the_whole_message() {
    let error = AppError::Message("PWSH.EXE IS NOT RECOGNIZED as a command".to_string());
    assert!(should_retry_with_windows_powershell(&error));
    let io = AppError::Io("pwsh.exe does not exist".to_string());
    assert!(should_retry_with_windows_powershell(&io));
    let other = AppError::Message("cannot find pwsh".to_string());
    assert!(!should_retry_with_windows_powershell(&other));
}

#[test]
fn declined_elevation_by_exit_code_or_text() {
    assert!(is_user_declined_elevation(Some(1223), "", ""));
    assert!(is_user_declined_elevation(None, "Operation Was Cancelled", ""));
    assert!(is_user_declined_elevation(Some(5), "", "CANCELLED BY THE USER"));
    assert!(!is_user_declined_elevation(Some(1), "done", "failed"));
    assert!(!is_user_declined_elevation(None, "", ""));
}

#[test]
fn classify_falls_back_when_nothing_was_printed() {
    match classify_elevation_failure(Some(2), "  ", "\n", "fallback text".to_string()) {
        AppError::Message(m) => assert_eq!(m, "fallback text"),
        other => panic!("unexpected {other:?}"),
    }
    assert!(matches!(
        classify_elevation_failure(Some(1223), "anything", "", "f".to_string()),
        AppError::ElevationDeclined
    ));
}

#[test]
fn shell_output_puts_stderr_first() {
    assert_eq!(combine_shell_output("  out \n", " err "), Some("err\nout".to_string()));
    assert_eq!(combine_shell_output("out", ""), Some("out".to_string()));
    assert_eq!(combine_shell_output("", "err"), Some("err".to_string()));
    assert_eq!(combine_shell_output(" ", "\t"), None);
}

#[test]
fn powershell_escaping_doubles_single_quotes() {
    assert_eq!(escape_for_powershell("it's"), "it''s");
    assert_eq!(escape_for_powershell("plain"), "plain");
}

#[test]
fn start_process_command_quotes_every_argument() {
    let args = vec!["-File".to_string(), "C:\\it's.ps1".to_string()];
    let command = elevated_start_process_command("pwsh.exe", &args);
    assert_eq!(
        command,
        "$process = Start-Process -FilePath 'pwsh.exe' -ArgumentList @('\"-File\"', '\"C:\\it''s.ps1\"') -Verb RunAs -Wait -PassThru -ErrorAction Stop; exit $process.ExitCode"
    );
    let none: Vec<String> = Vec::new();
    assert_eq!(
        elevated_start_process_command("a.exe", &none),
        "$process = Start-Process -FilePath 'a.exe' -ArgumentList @() -Verb RunAs -Wait -PassThru -ErrorAction Stop; exit $process.ExitCode"
    );
}

#[test]
fn device_selector_command_names_file_and_folder() {
    assert_eq!(
        device_selector_start_command("C:\\APO\\DeviceSelector.exe", "C:\\APO"),
        "Start-Process -FilePath 'C:\\APO\\DeviceSelector.exe' -WorkingDirectory 'C:\\APO' -Verb RunAs -ErrorAction Stop"
    );
}

#[test]
fn shell_arguments_and_order() {
    assert_eq!(
        powershell_arguments("exit 0"),
        vec!["-NoProfile", "-NonInteractive", "-ExecutionPolicy", "Bypass", "-Command", "exit 0"]
    );
    assert_eq!(elevation_shells(), vec!["pwsh.exe", "powershell.exe"]);
    assert_eq!(
        installer_arguments("s.ps1", "l.log"),
        vec!["-NoProfile", "-NonInteractive", "-ExecutionPolicy", "Bypass", "-File", "s.ps1", "-LogPath", "l.log"]
    );
}

#[test]
fn exit_messages_show_the_code_or_unknown() {
    assert_eq!(
        elevated_exit_message("x.exe", Some(-5)),
        "The elevated PowerShell command 'x.exe' exited with code -5."
    );
    assert_eq!(
        elevated_exit_message("x.exe", Some(i32::MIN)),
        "The elevated PowerShell command 'x.exe' exited with code -2147483648."
    );
    assert_eq!(
        elevated_exit_message("x.exe", None),
        "The elevated PowerShell command 'x.exe' exited with code unknown."
    );
}

#[test]
fn shell_attempts_decide_the_result() {
    assert!(elevated_shell_result("f".to_string(), &ShellOutcome::NotStarted("missing".to_string())).is_none());
    let ok = ShellOutcome::Finished { success: true, code: Some(0), stdout: String::new(), stderr: String::new() };
    assert!(matches!(elevated_shell_result("f".to_string(), &ok), Some(Ok(()))));
    let failed = ShellOutcome::Finished { success: false, code: Some(1), stdout: " out ".to_string(), stderr: String::new() };
    match elevated_shell_result("f".to_string(), &failed) {
        Some(Err(AppError::Message(m))) => assert_eq!(m, "out"),
        other => panic!("unexpected {other:?}"),
    }
    match no_shell_started(Some("not found".to_string())) {
        AppError::Io(m) => assert_eq!(m, "not found"),
        other => panic!("unexpected {other:?}"),
    }
    match no_shell_started(None) {
        AppError::Message(m) => assert_eq!(m, "Unable to start an elevated PowerShell shell."),
        other => panic!("unexpected {other:?}"),
    }
}

#[test]
fn installer_log_is_summarised_by_its_last_line() {
    let log = "  first line \r\n\r\nsecond\n   \n";
    assert_eq!(installer_log_summary(log), Some("second".to_string()));
    assert_eq!(installer_log_lines(log), vec!["[Installer] first line", "[Installer] second"]);
    assert_eq!(installer_log_summary(" \n\n"), None);
    let (logged, error) = install_failure(Some("exit 1603".to_string()), &AppError::ElevationDeclined);
    assert_eq!(logged, "Equalizer APO install failed: exit 1603");
    match error {
        AppError::Message(m) => assert_eq!(m, "Equalizer APO install failed: exit 1603. Open Logs for the full installer output."),
        other => panic!("unexpected {other:?}"),
    }
    let (logged, _) = install_failure(None, &AppError::Message("boom".to_string()));
    assert_eq!(logged, "Equalizer APO install failed: boom");
}

#[test]
fn selector_path_joins_like_windows() {
    assert_eq!(selector_path_from_install_path("C:\\APO\\"), "C:\\APO\\DeviceSelector.exe");
    assert_eq!(selector_path_from_install_path("C:"), "C:DeviceSelector.exe");
    assert_eq!(selector_path_from_install_path(""), "DeviceSelector.exe");
    match selector_path_error("C:\\x.exe") {
        AppError::Message(m) => assert_eq!(m, "Device Selector was not found at 'C:\\x.exe'. Reinstall Equalizer APO to repair the install."),
        other => panic!("unexpected {other:?}"),
    }
}
