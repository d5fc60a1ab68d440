use smart_eq_preset_switcher::error::AppError;
use smart_eq_preset_switcher::library::{unique_preset_name, AppStateInner};
use smart_eq_preset_switcher::model::{
    DiskGroup, GroupMetadata, PresetFileSnapshot, PresetMetadata, PresetsMetadata, TraySelection,
};
use smart_eq_preset_switcher::tray::{
    active_preset_label, build_tray_targets, disable_eq_item, empty_presets_menu_id,
    menu_group_label, preset_item_checked, preset_menu_id, tray_menu_action, TrayAction,
};

fn library() -> AppStateInner {
    AppStateInner::new(
        "/data/app".to_string(),
        "/data/app/presets".to_string(),
        "/data/app/presets.json".to_string(),
        "/data/app/config".to_string(),
        "/data/app/config".to_string(),
        None,
        PresetsMetadata::default(),
    )
}

fn names(state: &AppStateInner) -> Vec<String> {
    state.metadata().groups.iter().map(|g| g.name.clone()).collect()
}

fn active(state: &AppStateInner) -> Vec<Option<String>> {
    state.metadata().groups.iter().map(|g| g.active_preset.clone()).collect()
}

#[test]
fn created_groups_are_trimmed_and_unique() {
    let mut s = library();
    assert_eq!(s.create_group(" Rock ").unwrap(), "Rock");
    assert_eq!(s.create_group("Jazz").unwrap(), "Jazz");
    match s.create_group("Rock") {
        Err(AppError::AlreadyExists(n)) => assert_eq!(n, "Rock"),
        other => panic!("unexpected {other:?}"),
    }
    match s.create_group("CON") {
        Err(e) => assert_eq!(e.message(), "'CON' is not a valid Windows file name."),
        other => panic!("unexpected {other:?}"),
    }
    assert!(matches!(s.create_group("a/b"), Err(AppError::InvalidName(_))));
    assert!(matches!(s.create_group("   "), Err(AppError::InvalidName(_))));
    assert_eq!(names(&s), vec!["Rock", "Jazz"]);
    let orders: Vec<usize> = s.metadata().groups.iter().map(|g| g.order).collect();
    assert_eq!(orders, vec![0, 1]);
}

#[test]
fn applying_a_preset_leaves_it_the_only_active_one() {
    let mut s = library();
    s.create_group("Rock").unwrap();
    s.create_group("Jazz").unwrap();
    s.create_preset("Rock", "Loud", None).unwrap();
    s.create_preset("Jazz", "Warm", Some("Preamp: -3 dB".to_string())).unwrap();
    s.set_eq_disabled(true);
    s.apply_preset("Rock", "Loud").unwrap();
    assert_eq!(active(&s), vec![Some("Loud".to_string()), None]);
    assert!(!s.is_eq_disabled());
    s.apply_preset("Jazz", "Warm").unwrap();
    assert_eq!(active(&s), vec![None, Some("Warm".to_string())]);
    assert_eq!(s.active_selection(), Some(("Jazz".to_string(), "Warm".to_string())));
    match s.apply_preset("Jazz", "Loud") {
        Err(AppError::PresetNotFound { group, name }) => {
            assert_eq!(group, "Jazz");
            assert_eq!(name, "Loud");
        }
        other => panic!("unexpected {other:?}"),
    }
    match s.apply_preset("Blues", "Loud") {
        Err(e) => assert_eq!(e.message(), "Group 'Blues' was not found."),
        other => panic!("unexpected {other:?}"),
    }
    assert_eq!(active(&s), vec![None, Some("Warm".to_string())]);
}

#[test]
fn bypassing_the_eq_clears_the_active_preset() {
    let mut s = library();
    s.create_group("Rock").unwrap();
    s.create_preset("Rock", "Loud", None).unwrap();
    s.apply_preset("Rock", "Loud").unwrap();
    s.set_eq_disabled(true);
    assert!(s.is_eq_disabled());
    assert_eq!(active(&s), vec![None]);
    assert_eq!(s.active_selection(), None);
}

#[test]
fn created_preset_content_defaults_to_empty() {
    let mut s = library();
    s.create_group("Rock").unwrap();
    assert_eq!(s.create_preset("Rock", " Loud ", None).unwrap(), ("Loud".to_string(), String::new()));
    assert_eq!(
        s.create_preset("Rock", "Soft", Some("x".to_string())).unwrap(),
        ("Soft".to_string(), "x".to_string())
    );
    assert!(matches!(s.create_preset("Rock", "Loud", None), Err(AppError::AlreadyExists(_))));
    assert!(matches!(s.create_preset("Pop", "Loud", None), Err(AppError::GroupNotFound(_))));
}

#[test]
fn renaming_and_deleting_groups() {
    let mut s = library();
    s.create_group("Rock").unwrap();
    s.create_group("Jazz").unwrap();
    assert_eq!(s.rename_group("Rock", " Metal ").unwrap(), "Metal");
    assert!(matches!(s.rename_group("Jazz", "Metal"), Err(AppError::AlreadyExists(_))));
    assert!(matches!(s.rename_group("Pop", "Folk"), Err(AppError::GroupNotFound(_))));
    s.delete_group("Metal").unwrap();
    assert_eq!(names(&s), vec!["Jazz"]);
    assert_eq!(s.metadata().groups[0].order, 0);
}

#[test]
fn group_emoji_is_trimmed_or_cleared() {
    let mut s = library();
    s.create_group("Rock").unwrap();
    s.set_group_emoji("Rock", Some(" 🎸 ".to_string())).unwrap();
    assert_eq!(s.metadata().groups[0].emoji, Some("🎸".to_string()));
    s.set_group_emoji("Rock", Some("   ".to_string())).unwrap();
    assert_eq!(s.metadata().groups[0].emoji, None);
}

#[test]
fn reordering_needs_every_group_once() {
    let mut s = library();
    s.create_group("A").unwrap();
    s.create_group("B").unwrap();
    s.create_group("C").unwrap();
    s.reorder_groups(&vec!["C".to_string(), "A".to_string(), "B".to_string()]).unwrap();
    assert_eq!(names(&s), vec!["C", "A", "B"]);
    match s.reorder_groups(&vec!["C".to_string(), "A".to_string()]) {
        Err(AppError::Message(m)) => {
            assert_eq!(m, "The supplied group order does not match the existing groups.")
        }
        other => panic!("unexpected {other:?}"),
    }
    assert_eq!(names(&s), vec!["C", "A", "B"]);
}

#[test]
fn imported_presets_get_unique_sanitized_names() {
    let mut s = library();
    s.create_group("Rock").unwrap();
    s.create_preset("Rock", "My Preset", None).unwrap();
    let stems = vec![Some("My:Preset".to_string()), None, Some("  ".to_string()), Some("x".to_string())];
    let imported = s.import_presets("Rock", &stems).unwrap();
    assert_eq!(imported, vec!["My Preset 2", "Imported Preset", "Imported Preset 2", "x"]);
    let presets: Vec<String> = s.metadata().groups[0].presets.iter().map(|p| p.name.clone()).collect();
    assert_eq!(presets, vec!["My Preset", "My Preset 2", "Imported Preset", "Imported Preset 2", "x"]);
}

#[test]
fn unique_preset_name_skips_every_taken_suffix() {
    let taken: Vec<PresetMetadata> = ["Bass", "Bass 2", "Bass 3", "Treble"]
        .iter()
        .enumerate()
        .map(|(k, n)| PresetMetadata { name: n.to_string(), order: k })
        .collect();
    assert_eq!(unique_preset_name(&taken, "Bass"), "Bass 4");
    assert_eq!(unique_preset_name(&taken, "Mid"), "Mid");
    assert_eq!(unique_preset_name(&taken, "Treble"), "Treble 2");
    let full: Vec<PresetMetadata> = ["X", "X 2"]
        .iter()
        .enumerate()
        .map(|(k, n)| PresetMetadata { name: n.to_string(), order: k })
        .collect();
    let name = unique_preset_name(&full, "X");
    assert_eq!(name, "X 3");
    assert!(full.iter().all(|p| p.name != name));
}

fn all_distinct(names: &[String]) -> bool {
    names.iter().enumerate().all(|(i, a)| names.iter().skip(i + 1).all(|b| a != b))
}

#[test]
fn names_stay_distinct_through_operations() {
    let mut s = library();
    s.create_group("Rock").unwrap();
    s.create_group("Jazz").unwrap();
    assert!(s.create_group("Rock").is_err());
    s.create_preset("Rock", "A", None).unwrap();
    s.create_preset("Jazz", "A", None).unwrap();
    assert!(s.create_preset("Rock", "A", None).is_err());
    s.import_presets("Rock", &vec![Some("A".to_string()), Some("A".to_string())]).unwrap();
    assert!(s.rename_preset("Rock", "A 2", "A").is_err());
    s.rename_preset("Rock", "A 2", "B").unwrap();
    assert!(s.rename_group("Jazz", "Rock").is_err());
    s.move_preset("Rock", "Jazz", "B", None, false).unwrap();
    let groups = &s.metadata().groups;
    assert!(all_distinct(&names(&s)));
    for g in groups {
        let presets: Vec<String> = g.presets.iter().map(|p| p.name.clone()).collect();
        assert!(all_distinct(&presets), "{presets:?}");
    }
    let jazz: Vec<String> = groups[1].presets.iter().map(|p| p.name.clone()).collect();
    assert_eq!(jazz, vec!["A", "B"]);
}

#[test]
fn saving_a_preset_twice_is_saving_it_once() {
    let mut s = library();
    s.create_group("Rock").unwrap();
    s.create_preset("Rock", "A", None).unwrap();
    s.save_preset("Rock", " B ").unwrap();
    let once: Vec<String> = s.metadata().groups[0].presets.iter().map(|p| p.name.clone()).collect();
    s.save_preset("Rock", "B").unwrap();
    let twice: Vec<String> = s.metadata().groups[0].presets.iter().map(|p| p.name.clone()).collect();
    assert_eq!(once, vec!["A", "B"]);
    assert_eq!(twice, once);
}

#[test]
fn moving_a_preset_within_its_group() {
    let mut s = library();
    s.create_group("Rock").unwrap();
    for n in ["a", "b", "c"] {
        s.create_preset("Rock", n, None).unwrap();
    }
    s.move_preset("Rock", "Rock", "a", Some(3), false).unwrap();
    let presets: Vec<String> = s.metadata().groups[0].presets.iter().map(|p| p.name.clone()).collect();
    assert_eq!(presets, vec!["b", "c", "a"]);
    let orders: Vec<usize> = s.metadata().groups[0].presets.iter().map(|p| p.order).collect();
    assert_eq!(orders, vec![0, 1, 2]);
}

#[test]
fn moving_an_active_preset_to_another_group_keeps_it_active() {
    let mut s = library();
    s.create_group("Rock").unwrap();
    s.create_group("Jazz").unwrap();
    s.create_preset("Rock", "a", None).unwrap();
    s.apply_preset("Rock", "a").unwrap();
    s.move_preset("Rock", "Jazz", "a", None, false).unwrap();
    assert_eq!(active(&s), vec![None, Some("a".to_string())]);
    assert!(s.metadata().groups[0].presets.is_empty());
}

#[test]
fn syncing_with_disk_keeps_known_order_and_appends_new() {
    let metadata = PresetsMetadata {
        config_path_prompted: false,
        eq_disabled: false,
        groups: vec![
            GroupMetadata {
                name: "Rock".to_string(),
                order: 0,
                emoji: Some("🎸".to_string()),
                active_preset: Some("b".to_string()),
                presets: vec![
                    PresetMetadata { name: "b".to_string(), order: 0 },
                    PresetMetadata { name: "a".to_string(), order: 1 },
                    PresetMetadata { name: "gone".to_string(), order: 2 },
                ],
            },
            GroupMetadata {
                name: "Old".to_string(),
                order: 1,
                emoji: None,
                active_preset: None,
                presets: vec![],
            },
        ],
    };
    let mut s = AppStateInner::new(
        "/a".to_string(),
        "/a/presets".to_string(),
        "/a/presets.json".to_string(),
        "/a/config".to_string(),
        "/a/config".to_string(),
        None,
        metadata,
    );
    let disk = vec![
        DiskGroup { name: "New".to_string(), presets: vec!["n".to_string()] },
        DiskGroup { name: "Rock".to_string(), presets: vec!["a".to_string(), "b".to_string(), "c".to_string()] },
    ];
    s.sync_metadata_with_disk(&disk);
    assert_eq!(names(&s), vec!["Rock", "New"]);
    let rock: Vec<String> = s.metadata().groups[0].presets.iter().map(|p| p.name.clone()).collect();
    assert_eq!(rock, vec!["b", "a", "c"]);
    assert_eq!(s.metadata().groups[0].emoji, Some("🎸".to_string()));
    assert_eq!(s.metadata().groups[0].active_preset, Some("b".to_string()));
}

#[test]
fn snapshot_shows_presets_whose_file_was_read() {
    let mut s = library();
    s.create_group("Rock").unwrap();
    s.create_preset("Rock", "a", None).unwrap();
    s.create_preset("Rock", "b", None).unwrap();
    let files = vec![vec![
        None,
        Some(PresetFileSnapshot { content: "Preamp: -1 dB".to_string(), convolution: None }),
    ]];
    let snap = s.snapshot(&files, true);
    assert_eq!(snap.groups.len(), 1);
    assert_eq!(snap.groups[0].presets.len(), 1);
    assert_eq!(snap.groups[0].presets[0].name, "b");
    assert_eq!(snap.groups[0].presets[0].order, 1);
    assert_eq!(snap.groups[0].presets[0].content, "Preamp: -1 dB");
    assert!(snap.needs_config_migration);
    assert_eq!(snap.config_path, "/data/app/config");
}

#[test]
fn config_path_is_confirmed_or_reported() {
    let mut s = library();
    s.set_config_path("/srv/eq/", "/srv/eq").unwrap();
    assert_eq!(s.get_config_path(), "/srv/eq");
    match s.set_config_path("/srv/wanted", "/srv/other\\") {
        Err(AppError::Message(m)) => assert_eq!(
            m,
            "Equalizer APO ConfigPath was updated to '/srv/other', but the requested path was '/srv/wanted'. This may indicate another process modified the registry."
        ),
        other => panic!("unexpected {other:?}"),
    }
    assert_eq!(s.get_config_path(), "/srv/other");
}

#[test]
fn migration_prompt_only_for_unwritable_non_default_paths() {
    let mut s = library();
    assert!(!s.should_prompt_for_config_migration(false));
    s.refresh_runtime_paths(Some("C:\\APO\\config".to_string()), None);
    assert_eq!(s.get_config_path(), "C:\\APO\\config");
    assert!(s.should_prompt_for_config_migration(false));
    assert!(!s.should_prompt_for_config_migration(true));
    s.mark_config_path_prompted(true);
    assert!(!s.should_prompt_for_config_migration(false));
    s.refresh_runtime_paths(Some("C:\\APO\\config".to_string()), Some("D:\\reg".to_string()));
    assert_eq!(s.get_config_path(), "D:\\reg");
    s.refresh_runtime_paths(None, None);
    assert_eq!(s.get_config_path(), s.default_config_path_string());
}

#[test]
fn tray_items_resolve_to_their_presets() {
    let mut s = library();
    s.create_group("Rock").unwrap();
    s.create_group("Jazz").unwrap();
    s.create_preset("Rock", "a", None).unwrap();
    s.create_preset("Jazz", "b", None).unwrap();
    s.create_preset("Jazz", "c", None).unwrap();
    let file = || Some(PresetFileSnapshot { content: String::new(), convolution: None });
    let files = vec![vec![file()], vec![file(), file()]];
    let snap = s.snapshot(&files, false);
    let targets = build_tray_targets(&snap);
    let ids: Vec<String> = targets.iter().map(|t| t.0.clone()).collect();
    assert_eq!(ids, vec!["preset.0", "preset.1", "preset.2"]);
    s.replace_tray_targets(targets.clone());
    let sel = s.resolve_tray_selection("preset.2").unwrap();
    assert_eq!((sel.group.as_str(), sel.preset.as_str()), ("Jazz", "c"));
    match s.resolve_tray_selection("preset.9") {
        Err(e) => assert_eq!(e.message(), "The tray menu item 'preset.9' is no longer valid."),
        other => panic!("unexpected {other:?}"),
    }
    assert_eq!(preset_menu_id(&targets, "Jazz", "b").unwrap(), "preset.1");
    match preset_menu_id(&targets, "Jazz", "z") {
        Err(AppError::UnknownMenuItem(m)) => assert_eq!(m, "Jazz/z"),
        other => panic!("unexpected {other:?}"),
    }
}

#[test]
fn tray_labels_and_actions() {
    let mut s = library();
    s.create_group("Rock").unwrap();
    s.create_preset("Rock", "a", None).unwrap();
    s.set_group_emoji("Rock", Some("🎸".to_string())).unwrap();
    let files = vec![vec![Some(PresetFileSnapshot { content: String::new(), convolution: None })]];
    let snap = s.snapshot(&files, false);
    assert_eq!(menu_group_label(&snap.groups[0]), "🎸 Rock");
    assert_eq!(active_preset_label(&snap), "Active: None");
    assert!(!preset_item_checked(&snap.groups[0], "a"));
    s.apply_preset("Rock", "a").unwrap();
    let snap = s.snapshot(&files, false);
    assert_eq!(active_preset_label(&snap), "Active: a");
    assert!(preset_item_checked(&snap.groups[0], "a"));
    assert_eq!(tray_menu_action("menu.manage"), TrayAction::Manage);
    assert_eq!(tray_menu_action("menu.autorun"), TrayAction::ToggleAutorun);
    assert_eq!(tray_menu_action("menu.about"), TrayAction::About);
    assert_eq!(tray_menu_action("menu.exit"), TrayAction::Exit);
    assert_eq!(tray_menu_action("menu.disable_eq"), TrayAction::DisableEq);
    assert_eq!(tray_menu_action("preset.0"), TrayAction::ApplyPreset);
    assert_eq!(empty_presets_menu_id("Rock"), "menu.empty-presets.Rock");
    assert_eq!(disable_eq_item(true), ("EQ: Bypassed", false));
    assert_eq!(disable_eq_item(false), ("Bypass EQ", true));
    let _unused: Option<TraySelection> = None;
}
