use smart_eq_preset_switcher::error::AppError;
use smart_eq_preset_switcher::listing::sort_names;
use smart_eq_preset_switcher::names::{is_wav_extension, sanitize_import_name, validate_name};
use smart_eq_preset_switcher::paths::{
    normalize_path, relative_path, validate_and_normalize_path, validate_config_path,
    PathComponent,
};
use smart_eq_preset_switcher::preset_text::{
    build_config_with_managed_include, build_convolution_preset_content,
    build_managed_preset_payload, convolution_extraction_stalls_exec, ensure_trailing_newline,
    extract_convolution_path, format_convolution_path, is_legacy_managed_config,
    normalize_windows_newlines, remove_convolution_path, replace_convolution_path,
    replace_existing_managed_block, strip_wrapping_quotes,
};

#[test]
fn newlines_become_crlf() {
    assert_eq!(normalize_windows_newlines("a\nb\r\nc\rd"), "a\r\nb\r\nc\r\nd");
    assert_eq!(ensure_trailing_newline("x"), "x\r\n");
    assert_eq!(ensure_trailing_newline("x\n"), "x\r\n");
    assert_eq!(ensure_trailing_newline(""), "\r\n");
    let once = ensure_trailing_newline("a\rb");
    assert_eq!(ensure_trailing_newline(&once), once);
    let n = normalize_windows_newlines("p\nq\r");
    assert_eq!(normalize_windows_newlines(&n), n);
}

#[test]
fn convolution_path_is_read_from_the_first_convolution_line() {
    let content = "Preamp: -3 dB\n  convolution : \"C:\\a b.wav\"\nConvolution: other.wav\n";
    assert_eq!(extract_convolution_path(content), Some("C:\\a b.wav".to_string()));
    assert_eq!(extract_convolution_path("Preamp: 1\nFilter: ON"), None);
    assert_eq!(extract_convolution_path("Convolution:   \nConvolution: 'x.wav'"), Some("x.wav".to_string()));
    assert!(convolution_extraction_stalls_exec("Convolution: \""));
    assert!(!convolution_extraction_stalls_exec("Convolution: a.wav"));
    assert_eq!(strip_wrapping_quotes("  \" in quotes \" "), "in quotes");
    assert_eq!(strip_wrapping_quotes("'mixed\""), "'mixed\"");
}

#[test]
fn replacing_the_convolution_path() {
    assert_eq!(
        replace_convolution_path("Preamp: 1\r\n  Convolution: old.wav\r\nX", "C:\\new.wav"),
        "Preamp: 1\r\n  Convolution: \"C:\\new.wav\"\r\nX\r\n"
    );
    assert_eq!(
        replace_convolution_path("Preamp: 1", "p.wav"),
        "Preamp: 1\r\nConvolution: \"p.wav\"\r\n"
    );
    assert_eq!(replace_convolution_path("", "p.wav"), "Convolution: \"p.wav\"\r\n");
    let replaced = replace_convolution_path("Preamp: 2\n", "q \"x\".wav");
    assert_eq!(extract_convolution_path(&replaced), Some("q \\\"x\\\".wav".to_string()));
    assert_eq!(format_convolution_path("a\"b"), "a\\\"b");
    assert_eq!(build_convolution_preset_content("C:\\a.wav"), "Convolution: \"C:\\a.wav\"\r\n");
}

#[test]
fn removing_the_convolution_path() {
    assert_eq!(remove_convolution_path("A\nConvolution: x\nB"), "A\r\nB\r\n");
    assert_eq!(remove_convolution_path("Convolution: x"), "");
    let removed = remove_convolution_path("A\n convolution: y.wav\r\n");
    assert_eq!(extract_convolution_path(&removed), None);
}

#[test]
fn an_attached_wav_path_reads_back() {
    let contents = [
        "",
        "Preamp: -3 dB\n",
        "Preamp: -3 dB",
        "  convolution: \"old.wav\"\r\nFilter 1: ON PK Fc 100 Hz Gain 2 dB Q 1\r\n",
        "Convolution: \"\nConvolution: other.wav\n",
        "\r\n\r\n",
    ];
    for content in contents {
        let written = replace_convolution_path(content, "room impulse.wav");
        assert!(!convolution_extraction_stalls_exec(&written), "{written:?}");
        assert_eq!(
            extract_convolution_path(&written),
            Some("room impulse.wav".to_string()),
            "{written:?}"
        );
        let removed = remove_convolution_path(&written);
        assert!(!convolution_extraction_stalls_exec(&removed));
        assert_eq!(extract_convolution_path(&removed), None, "{removed:?}");
    }
}

#[test]
fn config_txt_holds_only_the_managed_block() {
    let expected = "# >>> SmartEQPresetSwitcher >>>\r\nInclude: SmartEQPresetSwitcher\\active-preset.txt\r\n# <<< SmartEQPresetSwitcher <<<\r\n";
    for existing in [
        "",
        "Preamp: -6 dB\nGraphicEQ: 20 0",
        "# >>> SmartEqualizerAPOPresetsManager >>>\nInclude: x\n# <<< SmartEqualizerAPOPresetsManager <<<",
        "# SmartEqualizerAPOPresetsManager\n# Active preset: a / b",
    ] {
        assert_eq!(
            build_config_with_managed_include(existing, "SmartEQPresetSwitcher\\active-preset.txt"),
            expected
        );
    }
    assert!(is_legacy_managed_config("  # SmartEqualizerAPOPresetsManager\n# Active preset: x"));
    assert!(is_legacy_managed_config("# SmartEQPresetSwitcher\n# No active preset selected."));
    assert!(!is_legacy_managed_config("Preamp: 1"));
    assert_eq!(
        replace_existing_managed_block("x # <<< SmartEQPresetSwitcher <<<", "BLOCK"),
        Some("BLOCK".to_string())
    );
    assert_eq!(replace_existing_managed_block("Preamp: 1", "BLOCK"), None);
}

#[test]
fn managed_payload_names_the_active_preset() {
    assert_eq!(
        build_managed_preset_payload(
            Some(("Rock".to_string(), "Loud".to_string())),
            Some("Preamp: 1\nFilter: ON".to_string())
        ),
        "# Generated by SmartEQPresetSwitcher\r\n# Active preset: Rock / Loud\r\n\r\nPreamp: 1\r\nFilter: ON\r\n"
    );
    let none = "# Generated by SmartEQPresetSwitcher\r\n# No active preset selected.\r\n";
    assert_eq!(build_managed_preset_payload(None, None), none);
    assert_eq!(build_managed_preset_payload(Some(("a".to_string(), "b".to_string())), None), none);
}

#[test]
fn names_are_validated_and_sanitized() {
    assert_eq!(validate_name("  Rock  ").unwrap(), "Rock");
    for bad in ["", "  ", "con", "LPT9", "a:b", "what?", "x|y", "a*"] {
        assert!(matches!(validate_name(bad), Err(AppError::InvalidName(_))), "{bad}");
    }
    match validate_name(" COM1 ") {
        Err(AppError::InvalidName(n)) => assert_eq!(n, "COM1"),
        other => panic!("unexpected {other:?}"),
    }
    match validate_name("  ") {
        Err(AppError::InvalidName(n)) => assert_eq!(n, "  "),
        other => panic!("unexpected {other:?}"),
    }
    assert_eq!(sanitize_import_name("a<b>c"), "a b c");
    assert_eq!(sanitize_import_name("  My   preset "), "My preset");
    assert_eq!(sanitize_import_name("???"), "Imported Preset");
    assert!(is_wav_extension(Some("WAV".to_string())));
    assert!(is_wav_extension(Some("wav".to_string())));
    assert!(!is_wav_extension(Some("txt".to_string())));
    assert!(!is_wav_extension(None));
}

#[test]
fn config_paths_are_normalized_and_checked() {
    assert_eq!(normalize_path("C:\\x\\//"), "C:\\x");
    assert_eq!(normalize_path("/"), "");
    assert_eq!(validate_config_path("C:\\eq\\", true).unwrap(), "C:\\eq");
    match validate_config_path("eq", false) {
        Err(AppError::Message(m)) => {
            assert_eq!(m, "Config path must be an absolute path (e.g., C:\\folder\\config)")
        }
        other => panic!("unexpected {other:?}"),
    }
    match validate_config_path("/e?q/", true) {
        Err(AppError::Message(m)) => assert_eq!(m, "Config path contains invalid characters"),
        other => panic!("unexpected {other:?}"),
    }
    assert!(validate_and_normalize_path("relative/dir").is_err());
    match validate_and_normalize_path("config") {
        Err(AppError::Message(m)) => {
            assert_eq!(m, "Config path must be an absolute path (e.g., C:\\folder\\config)")
        }
        other => panic!("unexpected {other:?}"),
    }
}

fn normal(s: &str) -> PathComponent {
    PathComponent::Normal(s.to_string())
}

#[test]
fn relative_paths_from_components() {
    let from = vec![PathComponent::RootDir, normal("home"), normal("app"), normal("config")];
    let mut target = from.clone();
    target.push(normal("SmartEQPresetSwitcher"));
    target.push(normal("active-preset.txt"));
    let steps = relative_path(&from, &target).unwrap();
    assert_eq!((steps.ups, steps.common), (0, 4));
    let other = vec![PathComponent::RootDir, normal("home"), normal("x"), normal("y")];
    let steps = relative_path(&from, &other).unwrap();
    assert_eq!((steps.ups, steps.common), (2, 2));
    let c = vec![PathComponent::Prefix("C:".to_string()), PathComponent::RootDir, normal("a")];
    let d = vec![PathComponent::Prefix("D:".to_string()), PathComponent::RootDir, normal("a")];
    assert!(relative_path(&c, &d).is_none());
    assert!(relative_path(&Vec::new(), &d).is_none());
    let rel = vec![normal("a"), normal("b")];
    assert!(relative_path(&rel, &rel).is_none());
}

#[test]
fn folder_names_are_sorted_as_strings_sort() {
    let names: Vec<String> = ["b", "B", "a", "ä", "ab", "", "a"].iter().map(|s| s.to_string()).collect();
    let mut expected = names.clone();
    expected.sort_unstable();
    assert_eq!(sort_names(names), expected);
}
