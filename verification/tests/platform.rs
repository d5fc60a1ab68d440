use smart_eq_preset_switcher::backend::{
    active_selection, build_eq_backend_status, default_sink_failure, linux_detected_backend,
    linux_install_command, linux_restart_command, restart_failure, should_restart_audio,
    BackendFacts,
};
use smart_eq_preset_switcher::cli::{
    autostart_desktop_entry, boot_sync_service_unit, config_change_failed_text,
    config_migration_prompt, helper_exit_code, linux_autorun_status, main_request,
    quote_exec_path, requested_wayland, run_key_command, run_value_matches, run_value_name,
    service_name, set_config_path_helper_arguments, startup_mode, tray_enabled_for_startup,
    truthy_env_value, try_handle_cli_mode, write_live_config_helper_arguments, CliRequest,
    MainRequest, StartupMode,
};
use smart_eq_preset_switcher::error::AppError;
use smart_eq_preset_switcher::linux_export::{
    extract_active_preset_content, graphic_eq_pairs, has_parametric_filter_lines,
    linux_export_kind, pipewire_conf_name, pipewire_filter_chain_config, pipewire_string,
    underivable_preset_note, LinuxExportKind,
};
use smart_eq_preset_switcher::model::{PresetGroup, PresetItem, PresetLibrary};
use smart_eq_preset_switcher::shell::{missing_path_error, reveal_failure, reveal_path_plan};
use smart_eq_preset_switcher::backend::HostPlatform;
use smart_eq_preset_switcher::tui::{
    group_lines, list_lines, one_shot_exit_code, parse_tui_command, preset_lines, AutorunAction,
    TuiCommand,
};

fn words(ws: &[&str]) -> Vec<String> {
    ws.iter().map(|w| w.to_string()).collect()
}

fn preset(name: &str, content: &str) -> PresetItem {
    PresetItem { name: name.to_string(), order: 0, content: content.to_string(), convolution: None }
}

fn sample_library() -> PresetLibrary {
    PresetLibrary {
        app_data_dir: "/home/u/.config/SmartEQPresetSwitcher".to_string(),
        config_path: "C:\\APO\\config".to_string(),
        default_config_path: "C:\\APO\\config".to_string(),
        installed_config_path: Some("C:\\Program Files\\EqualizerAPO\\config".to_string()),
        groups: vec![
            PresetGroup {
                name: "Rock".to_string(),
                order: 0,
                emoji: None,
                active_preset: None,
                presets: vec![preset("a", "Filter 1: ON")],
            },
            PresetGroup {
                name: "Jazz".to_string(),
                order: 1,
                emoji: None,
                active_preset: Some("c".to_string()),
                presets: vec![preset("b", "GraphicEQ: 20 1"), preset("c", "Preamp: 1")],
            },
        ],
        needs_config_migration: false,
        config_path_prompted: false,
        eq_disabled: false,
    }
}

#[test]
fn windows_status_reports_the_connection() {
    let lib = sample_library();
    assert_eq!(active_selection(&lib), (Some("Jazz".to_string()), Some("c".to_string())));
    let status = build_eq_backend_status(lib.clone(), BackendFacts::Windows { connected: true });
    assert_eq!(status.state, "connected");
    assert_eq!(status.status_label, "Equalizer APO connected");
    assert_eq!(status.detected_backend_label.as_deref(), Some("Equalizer APO detected"));
    assert_eq!(
        status.detected_backend_detail.as_deref(),
        Some("Equalizer APO ConfigPath: C:\\Program Files\\EqualizerAPO\\config")
    );
    let status = build_eq_backend_status(lib.clone(), BackendFacts::Windows { connected: false });
    assert_eq!(status.status_label, "APO setup needed");
    let mut bare = lib.clone();
    bare.installed_config_path = None;
    let status = build_eq_backend_status(bare, BackendFacts::Windows { connected: true });
    assert_eq!(status.status_label, "APO not detected");
    let mut idle = lib;
    idle.groups[1].active_preset = None;
    let status = build_eq_backend_status(idle, BackendFacts::Windows { connected: true });
    assert_eq!(status.state, "no_active_preset");
    assert!(status.active_group_name.is_none());
}

fn linux_facts(export_exists: bool, pipewire_config_exists: bool) -> BackendFacts {
    BackendFacts::Linux {
        active_export_path: "/e.txt".to_string(),
        pipewire_config_path: "/p.conf".to_string(),
        export_exists,
        pipewire_config_exists,
        detected_label: "PipeWire detected".to_string(),
        detected_detail: "Detected: PipeWire.".to_string(),
        install_command: "sudo pacman".to_string(),
    }
}

#[test]
fn linux_status_reports_the_export() {
    let status = build_eq_backend_status(sample_library(), linux_facts(true, true));
    assert_eq!(status.platform, "linux");
    assert_eq!(status.state, "export_ready");
    assert_eq!(status.setup_action_label, "Restart PipeWire EQ");
    assert!(should_restart_audio(&status));
    assert_eq!(status.restart_command, Some(linux_restart_command()));
    assert_eq!(status.installed_config_path, None);
    let status = build_eq_backend_status(sample_library(), linux_facts(true, false));
    assert_eq!(status.status_label, "Preset exported only");
    assert_eq!(status.setup_action_label, "Setup Linux EQ export");
    assert!(!should_restart_audio(&status));
    let status = build_eq_backend_status(sample_library(), linux_facts(false, false));
    assert_eq!(status.status_label, "System EQ not connected");
    let status = build_eq_backend_status(sample_library(), BackendFacts::MacOs);
    assert_eq!((status.platform.as_str(), status.state.as_str()), ("macos", "unsupported"));
    let status = build_eq_backend_status(sample_library(), BackendFacts::Other);
    assert_eq!(status.platform, "unknown");
}

#[test]
fn linux_stack_detection_lists_found_and_missing_parts() {
    assert_eq!(
        linux_detected_backend(true, true, true, false),
        (
            "PipeWire detected".to_string(),
            "Detected: PipeWire, pipewire-pulse/Pulse bridge, WirePlumber. Missing/optional: EasyEffects optional GUI.".to_string()
        )
    );
    assert_eq!(
        linux_detected_backend(true, true, true, true).0,
        "PipeWire + EasyEffects detected"
    );
    assert_eq!(
        linux_detected_backend(false, false, false, false),
        (
            "Linux EQ backend incomplete".to_string(),
            "Detected: none. Missing/optional: PipeWire, pipewire-pulse/Pulse bridge, WirePlumber, EasyEffects optional GUI.".to_string()
        )
    );
    assert_eq!(
        linux_install_command(false, true, true, false),
        "sudo apt update && sudo apt install -y pipewire pipewire-pulse wireplumber easyeffects"
    );
    assert_eq!(
        linux_install_command(false, false, false, false),
        "Install PipeWire, WirePlumber, pipewire-pulse and EasyEffects with your distribution package manager"
    );
    match restart_failure(false) {
        AppError::Message(m) => assert_eq!(m, "PipeWire setup file was written, but systemctl was unavailable. Run manually: systemctl --user try-restart pipewire.service pipewire-pulse.service wireplumber.service"),
        other => panic!("unexpected {other:?}"),
    }
    match default_sink_failure("o", "e") {
        AppError::Message(m) => assert_eq!(m, "PipeWire EQ was generated, but pactl could not set it as default. stdout='o' stderr='e'"),
        other => panic!("unexpected {other:?}"),
    }
}

#[test]
fn startup_options() {
    assert_eq!(startup_mode(&words(&["--tray", "--gui"])), StartupMode::Gui);
    assert_eq!(startup_mode(&words(&["--gui", "--minimized", "x"])), StartupMode::Tray);
    assert_eq!(startup_mode(&words(&[])), StartupMode::Gui);
    assert!(truthy_env_value(Some("YES".to_string())));
    assert!(truthy_env_value(Some("1".to_string())));
    assert!(!truthy_env_value(Some("no".to_string())));
    assert!(!truthy_env_value(None));
    assert!(tray_enabled_for_startup(StartupMode::Gui, false));
    assert!(!tray_enabled_for_startup(StartupMode::Tray, true));
    assert!(requested_wayland(false, &words(&["--gui", "--native-wayland"])));
    assert!(!requested_wayland(false, &words(&["--gui"])));
    assert!(requested_wayland(true, &words(&[])));
}

#[test]
fn first_arguments_choose_the_mode() {
    match main_request(&words(&["--tui", "apply", "Rock", "Loud"])) {
        MainRequest::Tui(rest) => assert_eq!(rest, words(&["apply", "Rock", "Loud"])),
        other => panic!("unexpected {other:?}"),
    }
    assert!(matches!(main_request(&words(&["--boot-sync"])), MainRequest::BootSync));
    assert!(matches!(main_request(&words(&["--autorun"])), MainRequest::Autorun(AutorunAction::Status)));
    assert!(matches!(main_request(&words(&["--autorun", "enable"])), MainRequest::Autorun(AutorunAction::Enable)));
    assert!(matches!(main_request(&words(&["--autorun", "bogus"])), MainRequest::Autorun(AutorunAction::Status)));
    assert!(matches!(main_request(&words(&["--gui"])), MainRequest::Continue));
    assert!(matches!(main_request(&words(&[])), MainRequest::Continue));
}

#[test]
fn elevated_helper_arguments_are_read_back() {
    let args = set_config_path_helper_arguments("C:\\eq");
    match try_handle_cli_mode(&args) {
        Some(CliRequest::SetConfigPath(p)) => assert_eq!(p, "C:\\eq"),
        other => panic!("unexpected {other:?}"),
    }
    let args = write_live_config_helper_arguments("s1", "c", "s2", "m");
    match try_handle_cli_mode(&args) {
        Some(CliRequest::WriteLiveConfig { staged_config_path, config_txt_path, staged_preset_path, managed_preset_path }) => {
            assert_eq!((staged_config_path.as_str(), config_txt_path.as_str(), staged_preset_path.as_str(), managed_preset_path.as_str()), ("s1", "c", "s2", "m"));
        }
        other => panic!("unexpected {other:?}"),
    }
    assert!(matches!(try_handle_cli_mode(&words(&["--elevated-write-live-config", "a"])), Some(CliRequest::MissingArgument)));
    assert!(matches!(try_handle_cli_mode(&words(&["--elevated-set-config-path"])), Some(CliRequest::MissingArgument)));
    assert!(try_handle_cli_mode(&words(&["--gui"])).is_none());
    assert!(try_handle_cli_mode(&words(&[])).is_none());
    assert_eq!(helper_exit_code(true), 0);
    assert_eq!(helper_exit_code(false), 1);
}

#[test]
fn autorun_files_and_values() {
    assert_eq!(quote_exec_path("/opt/my \"app\"\\bin"), "\"/opt/my \\\"app\\\"\\\\bin\"");
    assert_eq!(service_name(), "smart-eq-preset-switcher");
    assert_eq!(
        autostart_desktop_entry("\"/usr/bin/app\""),
        "[Desktop Entry]\nType=Application\nName=SmartEQPresetSwitcher\nComment=Start SmartEQPresetSwitcher at login\nExec=\"/usr/bin/app\" --tray\nHidden=false\nX-GNOME-Autostart-enabled=true\nNoDisplay=true\n"
    );
    assert_eq!(
        boot_sync_service_unit("\"/usr/bin/app\""),
        "[Unit]\nDescription=SmartEQPresetSwitcher Boot Sync\n\n[Service]\nExecStart=\"/usr/bin/app\" --boot-sync\nRestart=no\n\n[Install]\nWantedBy=default.target\n"
    );
    assert!(!linux_autorun_status(false, Some(true), true));
    assert!(linux_autorun_status(true, Some(true), false));
    assert!(!linux_autorun_status(true, Some(false), true));
    assert!(linux_autorun_status(true, None, true));
    assert_eq!(run_value_name(None), "smart_eq_preset_switcher");
    assert_eq!(run_value_name(Some("app".to_string())), "app");
    assert_eq!(run_key_command("C:\\a.exe"), "\"C:\\a.exe\" --tray");
    assert!(run_value_matches("\"C:\\a.exe\" --tray", "C:\\a.exe"));
    assert!(!run_value_matches("\"C:\\b.exe\" --tray", "C:\\a.exe"));
    for exe in ["C:\\Program Files\\Smart EQ\\app.exe", "/usr/bin/smart-eq", ""] {
        assert!(run_value_matches(&run_key_command(exe), exe));
    }
    assert!(config_migration_prompt("C:\\cfg").contains("\nC:\\cfg\n\nLet the app switch"));
    assert_eq!(
        config_change_failed_text("denied"),
        "The config path was not changed.\n\ndenied\n\nYou can try again later from the main window."
    );
}

#[test]
fn terminal_commands_are_parsed() {
    assert!(matches!(parse_tui_command(&words(&[])), TuiCommand::Continue));
    assert!(matches!(parse_tui_command(&words(&["?"])), TuiCommand::Help));
    assert!(matches!(parse_tui_command(&words(&["exit"])), TuiCommand::Quit));
    assert!(matches!(parse_tui_command(&words(&["ls"])), TuiCommand::List));
    match parse_tui_command(&words(&["apply", "Rock"])) {
        TuiCommand::Usage(u) => assert_eq!(u, "Usage: apply <group> <preset>"),
        other => panic!("unexpected {other:?}"),
    }
    match parse_tui_command(&words(&["apply", "Rock", "Loud", "extra"])) {
        TuiCommand::Apply { group, preset } => assert_eq!((group.as_str(), preset.as_str()), ("Rock", "Loud")),
        other => panic!("unexpected {other:?}"),
    }
    match parse_tui_command(&words(&["import", "Rock", "a.txt", "b.wav"])) {
        TuiCommand::Import { group, files } => {
            assert_eq!(group, "Rock");
            assert_eq!(files, words(&["a.txt", "b.wav"]));
        }
        other => panic!("unexpected {other:?}"),
    }
    assert!(matches!(parse_tui_command(&words(&["autorun", "disable"])), TuiCommand::Autorun(AutorunAction::Disable)));
    match parse_tui_command(&words(&["autorun", "maybe"])) {
        TuiCommand::UnknownAutorunAction(a) => assert_eq!(a, "maybe"),
        other => panic!("unexpected {other:?}"),
    }
    assert!(matches!(parse_tui_command(&words(&["status"])), TuiCommand::LinuxStatus));
    assert!(matches!(parse_tui_command(&words(&["disable"])), TuiCommand::Disable));
    match parse_tui_command(&words(&["dance"])) {
        TuiCommand::Unknown(w) => assert_eq!(w, "dance"),
        other => panic!("unexpected {other:?}"),
    }
    assert_eq!(one_shot_exit_code(&TuiCommand::List, true), 1);
    assert_eq!(one_shot_exit_code(&TuiCommand::List, false), 0);
    assert_eq!(one_shot_exit_code(&TuiCommand::Unknown("frob".to_string()), false), 1);
    assert_eq!(one_shot_exit_code(&TuiCommand::Usage("Usage: presets <group>".to_string()), false), 1);
    assert_eq!(one_shot_exit_code(&TuiCommand::UnknownAutorunAction("x".to_string()), false), 1);
    assert_eq!(one_shot_exit_code(&TuiCommand::Quit, false), 0);
}

#[test]
fn terminal_listings() {
    let lib = sample_library();
    assert_eq!(
        list_lines(&lib, true),
        words(&["  (EQ bypassed)", "Rock (active: (none))", "    a", "Jazz (active: c)", "    b", "  * c"])
    );
    assert_eq!(list_lines(&PresetLibrary::default(), true), words(&["No preset groups found."]));
    assert_eq!(group_lines(&lib), words(&["Rock", "Jazz"]));
    assert_eq!(preset_lines(&lib, "Jazz"), words(&["b", "c"]));
    assert_eq!(preset_lines(&lib, "Pop"), words(&["Group not found: Pop"]));
}

#[test]
fn revealing_paths_per_platform() {
    let plan = reveal_path_plan(HostPlatform::Windows, false, "C:\\a.txt", Some("C:\\".to_string()));
    assert_eq!(plan.len(), 1);
    assert_eq!(plan[0].program, "explorer.exe");
    assert_eq!(plan[0].args, words(&["/select,C:\\a.txt"]));
    let plan = reveal_path_plan(HostPlatform::Linux, false, "/a/b.txt", Some("/a".to_string()));
    assert_eq!(plan.iter().map(|r| r.args[0].clone()).collect::<Vec<_>>(), words(&["/a", "/a/b.txt"]));
    let plan = reveal_path_plan(HostPlatform::MacOs, false, "/a/b.txt", None);
    assert_eq!(plan[0].args, words(&["-R", "/a/b.txt"]));
    assert!(reveal_path_plan(HostPlatform::Other, true, "/a", None).is_empty());
    match reveal_failure(HostPlatform::Linux, "/a", Some("no xdg-open".to_string())) {
        AppError::Message(m) => assert_eq!(m, "Failed to open path '/a': no xdg-open"),
        other => panic!("unexpected {other:?}"),
    }
    assert!(matches!(reveal_failure(HostPlatform::Windows, "/a", Some("x".to_string())), AppError::Io(_)));
    match reveal_failure(HostPlatform::Other, "/a", None) {
        AppError::Message(m) => assert_eq!(m, "Revealing paths is not supported on this platform."),
        other => panic!("unexpected {other:?}"),
    }
    match missing_path_error("/nope") {
        AppError::Message(m) => assert_eq!(m, "The file or folder does not exist: /nope"),
        other => panic!("unexpected {other:?}"),
    }
}

#[test]
fn linux_export_of_the_active_preset() {
    let lib = sample_library();
    assert_eq!(extract_active_preset_content(&lib), Some("Preamp: 1".to_string()));
    let mut dangling = lib.clone();
    dangling.groups[1].active_preset = Some("zz".to_string());
    dangling.groups[0].active_preset = None;
    assert_eq!(extract_active_preset_content(&dangling), None);
    assert_eq!(linux_export_kind(&None), LinuxExportKind::Clear);
    assert_eq!(linux_export_kind(&Some("  filter 1: ON PK".to_string())), LinuxExportKind::Parametric);
    assert_eq!(linux_export_kind(&Some("GraphicEQ: 20 1".to_string())), LinuxExportKind::Graphic);
    assert!(has_parametric_filter_lines("Preamp: 1\nFILTER 2: ON"));
    assert!(!has_parametric_filter_lines("Preamp: 1\n# filter"));
    assert_eq!(pipewire_string("C:\\a \"b\""), "C:\\\\a \\\"b\\\"");
    let conf = pipewire_filter_chain_config("/home/u/x \"y\".txt");
    assert!(conf.starts_with("# Autogenerated by SmartEQPresetSwitcher.\n"));
    assert!(conf.contains("filename = \"/home/u/x \\\"y\\\".txt\"\n"));
    assert!(conf.ends_with("]\n"));
    assert_eq!(pipewire_conf_name(), "99-smart-eq-preset-switcher-parametric-eq.conf");
    assert!(underivable_preset_note().starts_with("# SmartEQPresetSwitcher could not derive"));
}

#[test]
fn graphic_eq_lines_give_frequency_and_gain_texts() {
    let pairs = graphic_eq_pairs("Preamp: -2 dB\n graphicEQ : 20Hz -1.5dB; 31.5 2 ; lone; 40 0.5 extra\nGraphicQ: 100HzHz 3dB");
    let expected: Vec<(String, String)> = vec![
        ("20".to_string(), "-1.5".to_string()),
        ("31.5".to_string(), "2".to_string()),
        ("40".to_string(), "0.5".to_string()),
        ("100".to_string(), "3".to_string()),
    ];
    assert_eq!(pairs, expected);
    assert!(graphic_eq_pairs("Filter 1: ON PK Fc 100 Hz").is_empty());
}
