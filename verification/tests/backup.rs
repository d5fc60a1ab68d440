use smart_eq_preset_switcher::backup::{
    build_convolution_state, imported_config_path, needs_backup_bytes,
    populate_backup_convolution_bytes, rebuild_groups_from_backup, restore_source_of,
    restored_preset_content, RestoreSource,
};
use smart_eq_preset_switcher::error::AppError;
use smart_eq_preset_switcher::model::{
    PresetConvolution, PresetGroup, PresetItem, PresetLibrary, WavRead,
};

fn item(name: &str, convolution: Option<PresetConvolution>) -> PresetItem {
    PresetItem { name: name.to_string(), order: 7, content: format!("{name} content"), convolution }
}

fn group(name: &str, emoji: Option<&str>, active: Option<&str>, presets: Vec<PresetItem>) -> PresetGroup {
    PresetGroup {
        name: name.to_string(),
        order: 9,
        emoji: emoji.map(|e| e.to_string()),
        active_preset: active.map(|a| a.to_string()),
        presets,
    }
}

fn wav(path: &str, base64: Option<&str>, error: Option<&str>) -> PresetConvolution {
    PresetConvolution {
        wav_path: path.to_string(),
        wav_base64: base64.map(|b| b.to_string()),
        error: error.map(|e| e.to_string()),
    }
}

#[test]
fn backup_needs_a_config_path() {
    let mut lib = PresetLibrary::default();
    lib.config_path = "  C:\\APO\\config ".to_string();
    assert_eq!(imported_config_path(&lib).unwrap(), "C:\\APO\\config");
    lib.config_path = " \t".to_string();
    match imported_config_path(&lib) {
        Err(AppError::Message(m)) => assert_eq!(m, "The imported backup is missing a config path."),
        other => panic!("unexpected {other:?}"),
    }
}

#[test]
fn groups_are_rebuilt_from_a_backup() {
    let groups = vec![
        group(" Rock ", Some(" 🎸 "), Some(" Loud "), vec![item(" Loud ", None), item("Soft", None)]),
        group("Jazz", Some("  "), Some("Missing"), vec![item("Warm", None)]),
    ];
    let rebuilt = rebuild_groups_from_backup(&groups).unwrap();
    assert_eq!(rebuilt.len(), 2);
    assert_eq!(rebuilt[0].name, "Rock");
    assert_eq!(rebuilt[0].order, 0);
    assert_eq!(rebuilt[0].emoji, Some("🎸".to_string()));
    assert_eq!(rebuilt[0].active_preset, Some("Loud".to_string()));
    let names: Vec<(String, usize)> = rebuilt[0].presets.iter().map(|p| (p.name.clone(), p.order)).collect();
    assert_eq!(names, vec![("Loud".to_string(), 0), ("Soft".to_string(), 1)]);
    assert_eq!(rebuilt[1].order, 1);
    assert_eq!(rebuilt[1].emoji, None);
    assert_eq!(rebuilt[1].active_preset, None);
}

#[test]
fn the_first_invalid_name_refuses_the_backup() {
    let groups = vec![
        group("Rock", None, None, vec![item("ok", None), item(" a|b ", None)]),
        group("CON", None, None, vec![]),
    ];
    match rebuild_groups_from_backup(&groups) {
        Err(AppError::InvalidName(n)) => assert_eq!(n, "a|b"),
        other => panic!("unexpected {other:?}"),
    }
    let groups = vec![group("  ", None, None, vec![item("x?", None)])];
    match rebuild_groups_from_backup(&groups) {
        Err(AppError::InvalidName(n)) => assert_eq!(n, "  "),
        other => panic!("unexpected {other:?}"),
    }
}

#[test]
fn restored_wav_files_come_from_the_backup_or_the_reference() {
    match restore_source_of(&Some(wav("C:\\a.wav", Some("AQID"), None))) {
        RestoreSource::Decoded(b) => assert_eq!(b, vec![1, 2, 3]),
        other => panic!("unexpected {other:?}"),
    }
    match restore_source_of(&Some(wav("C:\\a.wav", Some("not base64!"), None))) {
        RestoreSource::ReadReference(p) => assert_eq!(p, "C:\\a.wav"),
        other => panic!("unexpected {other:?}"),
    }
    assert!(matches!(restore_source_of(&Some(wav("  ", None, None))), RestoreSource::Nothing));
    assert!(matches!(restore_source_of(&None), RestoreSource::Nothing));
    assert_eq!(
        restored_preset_content("Preamp: 1\nConvolution: old.wav", true, "/p/Rock/Loud.wav"),
        "Preamp: 1\r\nConvolution: \"/p/Rock/Loud.wav\"\r\n"
    );
    assert_eq!(restored_preset_content("Preamp: 1\n", false, "/x.wav"), "Preamp: 1\n");
}

#[test]
fn backups_embed_the_wav_files_that_were_read() {
    let mut lib = PresetLibrary::default();
    lib.groups = vec![group(
        "Rock",
        None,
        None,
        vec![
            item("a", Some(wav("a.wav", None, None))),
            item("b", Some(wav("b.wav", None, None))),
            item("c", Some(wav("c.wav", None, Some("gone")))),
            item("d", None),
        ],
    )];
    assert!(needs_backup_bytes(&wav("a.wav", None, None)));
    assert!(!needs_backup_bytes(&wav("c.wav", None, Some("gone"))));
    assert!(!needs_backup_bytes(&wav("x.wav", Some("AA=="), None)));
    assert!(!needs_backup_bytes(&wav(" ", None, None)));
    let reads = vec![vec![
        Some(Ok(b"RIFF".to_vec())),
        Some(Err("permission denied".to_string())),
        Some(Ok(vec![9])),
    ]];
    populate_backup_convolution_bytes(&mut lib, &reads);
    let presets = &lib.groups[0].presets;
    assert_eq!(presets[0].convolution.as_ref().unwrap().wav_base64, Some("UklGRg==".to_string()));
    assert_eq!(presets[1].convolution.as_ref().unwrap().error, Some("permission denied".to_string()));
    assert_eq!(presets[2].convolution.as_ref().unwrap().wav_base64, None);
    assert!(presets[3].convolution.is_none());
    assert_eq!(presets[0].content, "a content");
    match restore_source_of(&presets[0].convolution) {
        RestoreSource::Decoded(b) => assert_eq!(b, b"RIFF".to_vec()),
        other => panic!("unexpected {other:?}"),
    }
}

#[test]
fn convolution_state_reports_what_reading_gave() {
    let missing = build_convolution_state("a.wav".to_string(), WavRead::Missing("/cfg/a.wav".to_string()));
    assert_eq!(missing.error, Some("The file or folder does not exist: /cfg/a.wav".to_string()));
    assert_eq!(missing.wav_base64, None);
    let bytes = build_convolution_state("a.wav".to_string(), WavRead::Bytes(vec![0, 255, 16, 32, 64]));
    assert_eq!(bytes.wav_base64, Some("AP8QIEA=".to_string()));
    assert_eq!(bytes.wav_path, "a.wav");
    let failed = build_convolution_state("a.wav".to_string(), WavRead::Failed("busy".to_string()));
    assert_eq!(failed.error, Some("busy".to_string()));
}

#[test]
fn standard_base64_round_trips() {
    let data: Vec<u8> = (0u8..=255).collect();
    let state = build_convolution_state("a.wav".to_string(), WavRead::Bytes(data.clone()));
    let text = state.wav_base64.clone().unwrap();
    match restore_source_of(&Some(state)) {
        RestoreSource::Decoded(bytes) => assert_eq!(bytes, data),
        other => panic!("unexpected {other:?}"),
    }
    let empty = build_convolution_state("a.wav".to_string(), WavRead::Bytes(Vec::new()));
    assert_eq!(empty.wav_base64, Some(String::new()));
    let broken = PresetConvolution {
        wav_path: "a.wav".to_string(),
        wav_base64: Some("%%%".to_string()),
        error: None,
    };
    match restore_source_of(&Some(broken)) {
        RestoreSource::ReadReference(path) => assert_eq!(path, "a.wav"),
        other => panic!("unexpected {other:?}"),
    }
    assert!(text.len() > 300);
}
