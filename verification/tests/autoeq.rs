use smart_eq_preset_switcher::autoeq::{
    archive_entry_matches_variant, archive_exact_candidates, archive_url, archive_url_fallback,
    can_use_extracted_cache, checked_archive_source, extract_preset_from_archive,
    extracted_preset_cache_file_name, fetch_failure, first_version_entry, index_progress,
    is_cache_recent, normalize_archive_path, parse_autoeq_variant, preset_progress,
    retry_from_fallback, select_archive_preset, should_download_archive, use_cached_archive,
    use_cached_index, variant_missing_message, AutoEqPresetKind, AutoEqPresetVariant,
    AutoEqProgressOperation, AutoEqProgressPhase, AutoEqProgressSource, AutoEqVersionEntry,
    CachedArtifactSource, LookupStep, next_lookup_step,
};
use smart_eq_preset_switcher::backend::HostPlatform;
use smart_eq_preset_switcher::error::AppError;
use smart_eq_preset_switcher::autoeq::AutoEqPresetKind::{Graphic, Parametric};

#[test]
fn auto_prefers_parametric_on_linux_and_windows() {
    assert_eq!(AutoEqPresetVariant::Auto.preferred_order(HostPlatform::Linux), vec![Parametric, Graphic]);
    assert_eq!(AutoEqPresetVariant::Auto.preferred_order(HostPlatform::Windows), vec![Parametric, Graphic]);
    assert_eq!(AutoEqPresetVariant::Auto.preferred_order(HostPlatform::MacOs), vec![Graphic, Parametric]);
    assert_eq!(AutoEqPresetVariant::Graphic.preferred_order(HostPlatform::Linux), vec![Graphic]);
    assert_eq!(AutoEqPresetVariant::Parametric.preferred_order(HostPlatform::Other), vec![Parametric]);
}

#[test]
fn labels_and_messages() {
    assert_eq!(AutoEqPresetVariant::Auto.label(), "Auto-selected");
    assert_eq!(AutoEqPresetKind::Graphic.label(), "GraphicEQ");
    assert_eq!(AutoEqPresetKind::Parametric.cache_key(), "parametric");
    assert_eq!(
        AutoEqPresetKind::Parametric.ready_message(CachedArtifactSource::StaleCache),
        "ParametricEQ preset ready from stale cached package."
    );
    assert_eq!(
        AutoEqPresetKind::Graphic.ready_message(CachedArtifactSource::Network),
        "GraphicEQ preset ready from downloaded package."
    );
    assert_eq!(CachedArtifactSource::Cache.progress_source(), AutoEqProgressSource::Cache);
    assert_eq!(
        variant_missing_message(AutoEqPresetVariant::Auto),
        "No compatible AutoEQ preset variant was found. Tried ParametricEQ first, then GraphicEQ fallback."
    );
}

#[test]
fn variants_are_parsed_from_loose_text() {
    assert_eq!(parse_autoeq_variant(" Filters ").unwrap(), AutoEqPresetVariant::Parametric);
    assert_eq!(parse_autoeq_variant("AUTO_TARGET").unwrap(), AutoEqPresetVariant::Auto);
    assert_eq!(parse_autoeq_variant("graphic-eq").unwrap(), AutoEqPresetVariant::Graphic);
    match parse_autoeq_variant(" Peace ") {
        Err(AppError::Message(m)) => {
            assert_eq!(m, "Unknown AutoEQ preset variant 'peace'. Expected auto, parametric, or graphic.")
        }
        other => panic!("unexpected {other:?}"),
    }
}

#[test]
fn exact_candidates_cover_entry_and_export_folders() {
    let c = archive_exact_candidates("HD 600", "oratory1990", AutoEqPresetKind::Graphic);
    assert_eq!(
        c,
        vec![
            "HD 600/oratory1990/graphic.txt",
            "export/HD 600/oratory1990/graphic.txt",
            "HD 600/oratory1990/graphiceq.txt",
            "export/HD 600/oratory1990/graphiceq.txt",
            "HD 600/oratory1990/graphic_eq.txt",
            "export/HD 600/oratory1990/graphic_eq.txt",
            "HD 600/oratory1990/GraphicEQ.txt",
            "export/HD 600/oratory1990/GraphicEQ.txt",
        ]
    );
    assert_eq!(archive_exact_candidates("a", "b", AutoEqPresetKind::Parametric).len(), 18);
    assert_eq!(normalize_archive_path("././a\\b"), "a/b");
    assert_eq!(normalize_archive_path("../a"), "../a");
}

#[test]
fn loose_matches_need_folder_suffix_and_kind() {
    let base = "HD 600/oratory1990";
    let export = "export/HD 600/oratory1990";
    assert!(archive_entry_matches_variant("HD 600/oratory1990/HD 600 GraphicEQ.TXT", base, export, Graphic));
    assert!(!archive_entry_matches_variant("HD 600/oratory1990/HD 600 GraphicEQ.TXT", base, export, Parametric));
    assert!(archive_entry_matches_variant("export/HD 600/oratory1990/x Filters.txt", base, export, Parametric));
    assert!(!archive_entry_matches_variant("HD 600/oratory1990/graphic.csv", base, export, Graphic));
    assert!(!archive_entry_matches_variant("HD 6000/oratory1990/graphic.txt", base, export, Graphic));
}

fn item(path: &str, content: &str) -> Result<(String, Result<String, String>), String> {
    Ok((path.to_string(), Ok(content.to_string())))
}

#[test]
fn exact_candidates_win_over_loose_matches() {
    let items = vec![
        item("./HD 600/oratory1990/HD 600 GraphicEQ.txt", "loose"),
        item("HD 600/oratory1990/graphic.txt", "exact"),
    ];
    assert_eq!(select_archive_preset(&items, "HD 600", "oratory1990", AutoEqPresetKind::Graphic).unwrap(), "exact");
    let loose_only = vec![item("HD 600/oratory1990/HD 600 GraphicEQ.txt", "loose"), item("HD 600/oratory1990/more graphic.txt", "second")];
    assert_eq!(select_archive_preset(&loose_only, "HD 600", "oratory1990", AutoEqPresetKind::Graphic).unwrap(), "loose");
    let broken = vec![item("x/y.txt", ""), Err("unexpected end of file".to_string())];
    match select_archive_preset(&broken, "HD 600", "oratory1990", AutoEqPresetKind::Graphic) {
        Err(AppError::Io(m)) => assert_eq!(m, "unexpected end of file"),
        other => panic!("unexpected {other:?}"),
    }
    match select_archive_preset(&Vec::new(), "HD 600", "oratory1990", AutoEqPresetKind::Parametric) {
        Err(AppError::Message(m)) => assert_eq!(m, "ParametricEQ preset file was not found in AutoEQ package."),
        other => panic!("unexpected {other:?}"),
    }
}

fn tar_gz(entries: &[(&str, &str)]) -> Vec<u8> {
    let encoder = flate2::write::GzEncoder::new(Vec::new(), flate2::Compression::default());
    let mut builder = tar::Builder::new(encoder);
    for (path, content) in entries {
        let mut header = tar::Header::new_gnu();
        header.set_size(content.len() as u64);
        header.set_mode(0o644);
        header.set_cksum();
        builder.append_data(&mut header, path, content.as_bytes()).unwrap();
    }
    builder.into_inner().unwrap().finish().unwrap()
}

#[test]
fn presets_are_found_in_a_real_archive() {
    let bytes = tar_gz(&[
        ("README.md", "hello"),
        ("HD 600/oratory1990/HD 600 ParametricEQ.txt", "Preamp: -6 dB\nFilter 1: ON PK Fc 100 Hz Gain 2.0 dB Q 0.7"),
        ("HD 600/oratory1990/HD 600 GraphicEQ.txt", "GraphicEQ: 20 -1; 1000 0"),
    ]);
    assert_eq!(
        extract_preset_from_archive(&bytes, "HD 600", "oratory1990", AutoEqPresetKind::Graphic).unwrap(),
        "GraphicEQ: 20 -1; 1000 0"
    );
    assert!(extract_preset_from_archive(&bytes, "HD 600", "oratory1990", AutoEqPresetKind::Parametric)
        .unwrap()
        .starts_with("Preamp: -6 dB"));
    assert!(matches!(
        extract_preset_from_archive(&bytes, "HD 650", "oratory1990", AutoEqPresetKind::Graphic),
        Err(AppError::Message(_))
    ));
    assert!(matches!(
        extract_preset_from_archive(b"not an archive", "HD 600", "oratory1990", AutoEqPresetKind::Graphic),
        Err(AppError::Io(_))
    ));
}

#[test]
fn cache_file_names_encode_name_and_source() {
    assert_eq!(extracted_preset_cache_file_name("HD 600", "oratory1990"), "SEQgNjAwCm9yYXRvcnkxOTkw.txt");
}

#[test]
fn cache_freshness_and_use() {
    assert!(is_cache_recent(Some(43_199_999_999_999)));
    assert!(!is_cache_recent(Some(43_200_000_000_000)));
    assert!(!is_cache_recent(None));
    assert!(use_cached_index(false, true, true));
    assert!(!use_cached_index(true, true, true));
    assert!(can_use_extracted_cache(true, true, Some(10), Some(10)));
    assert!(!can_use_extracted_cache(true, true, Some(9), Some(10)));
    assert!(can_use_extracted_cache(true, true, None, Some(10)));
    assert!(!can_use_extracted_cache(false, true, None, None));
    assert!(use_cached_archive(true, true, true));
    assert!(!use_cached_archive(true, false, true));
    assert!(fetch_failure("Failed: ", "offline", true).is_none());
    match fetch_failure("Failed to load the AutoEQ index from GitHub: ", "offline", false) {
        Some(AppError::Message(m)) => assert_eq!(m, "Failed to load the AutoEQ index from GitHub: offline"),
        other => panic!("unexpected {other:?}"),
    }
}

#[test]
fn archive_downloads_follow_the_metadata() {
    let remote = AutoEqVersionEntry { package_url: " ".to_string(), commit: "b".to_string() };
    let cached = Some(AutoEqVersionEntry { package_url: " ".to_string(), commit: "a".to_string() });
    assert!(should_download_archive(true, &cached, &remote));
    assert!(!should_download_archive(true, &Some(remote.clone()), &remote));
    assert!(should_download_archive(true, &None, &remote));
    assert!(should_download_archive(false, &Some(remote.clone()), &remote));
    assert_eq!(archive_url(&remote), archive_url_fallback());
    let named = AutoEqVersionEntry { package_url: "https://x/a.tar.gz".to_string(), commit: "c".to_string() };
    assert_eq!(archive_url(&named), "https://x/a.tar.gz");
    assert!(retry_from_fallback("https://x/a.tar.gz", &archive_url_fallback()));
    assert!(!retry_from_fallback(&archive_url_fallback(), &archive_url_fallback()));
    assert_eq!(checked_archive_source(true), CachedArtifactSource::Network);
    assert_eq!(first_version_entry(vec![named.clone(), remote.clone()]).unwrap().commit, "c");
    match first_version_entry(Vec::new()) {
        Err(AppError::Message(m)) => assert_eq!(m, "AutoEQ package metadata was empty."),
        other => panic!("unexpected {other:?}"),
    }
}

#[test]
fn progress_events_carry_their_entry() {
    let e = index_progress(AutoEqProgressPhase::CacheHit, "cached", Some(AutoEqProgressSource::Cache));
    assert_eq!(e.operation, AutoEqProgressOperation::Index);
    assert_eq!(e.message, "cached");
    assert!(e.preset_name.is_none());
    let p = preset_progress("HD 600", "oratory1990", AutoEqProgressPhase::Done, "done", None);
    assert_eq!(p.operation, AutoEqProgressOperation::Preset);
    assert_eq!(p.preset_name.as_deref(), Some("HD 600"));
    assert_eq!(p.preset_source.as_deref(), Some("oratory1990"));
}

#[test]
fn lookup_prefers_the_preferred_kind_from_either_source() {
    let order = vec![Parametric, Graphic];
    // Only the less preferred kind is cached: the archive is consulted first.
    assert_eq!(next_lookup_step(&order, &vec![false, true], &None), LookupStep::ConsultArchive);
    // The archive holds the preferred kind: it wins over the cached graphic file.
    assert_eq!(
        next_lookup_step(&order, &vec![false, true], &Some(vec![true, true])),
        LookupStep::ExtractFromArchive(Parametric)
    );
    // The archive lacks it: the cached graphic file is used.
    assert_eq!(
        next_lookup_step(&order, &vec![false, true], &Some(vec![false, true])),
        LookupStep::UseCache(Graphic)
    );
    // The preferred kind is cached: no archive needed.
    assert_eq!(next_lookup_step(&order, &vec![true, false], &None), LookupStep::UseCache(Parametric));
    assert_eq!(
        next_lookup_step(&order, &vec![false, false], &Some(vec![false, false])),
        LookupStep::Missing
    );
    assert_eq!(
        next_lookup_step(&order, &vec![false, false], &Some(vec![false, true])),
        LookupStep::ExtractFromArchive(Graphic)
    );
}
