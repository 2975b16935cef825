use matugen_studio::wallpaper::{
    add_source_internal, change_download_root, enable_source, finish_scan, hide_provider_history,
    migrate_legacy_history, path_id, provider_paths, record_provider_path, remove_source, save_bytes_target, image_matches_extension,
    scan_skips_source, source, stabilize_kde_path_at, EntryType, LegacyHistoryEntry, ScanState, SourceKind, WallpaperItem,
    WallpaperLibrary, WallpaperSource,
};

fn library(sources: Vec<WallpaperSource>) -> WallpaperLibrary {
    WallpaperLibrary {
        download_root: "/pics/Wallpapers/Matugen Studio".to_string(),
        sources,
        provider_records: Vec::new(),
        legacy_folders_migrated: false,
        legacy_history_migrated: false,
    }
}

fn downloads() -> WallpaperSource {
    source(SourceKind::MatugenDownloads, "/pics/Wallpapers/Matugen Studio", "Matugen Studio Downloads", true, false)
}

fn png_bytes() -> Vec<u8> {
    let img = image::RgbImage::from_pixel(2, 2, image::Rgb([10, 20, 30]));
    let mut out = std::io::Cursor::new(Vec::new());
    image::DynamicImage::ImageRgb8(img).write_to(&mut out, image::ImageFormat::Png).unwrap();
    out.into_inner()
}

#[test]
fn source_ids_hash_the_folder() {
    let expected = format!("UserFolder-{:x}", md5::compute(b"/home/u/Walls"));
    assert_eq!(path_id(SourceKind::UserFolder, "/home/u/Walls"), expected);
    let s = source(SourceKind::UserFolder, "/home/u/Walls", "Walls", true, true);
    assert_eq!(s.id, expected);
    assert!(s.enabled && s.recursive && s.removable);
}

#[test]
fn a_folder_added_then_removed_leaves_the_sources_as_they_were() {
    let mut data = library(vec![downloads()]);
    let before: Vec<String> = data.sources.iter().map(|s| s.id.clone()).collect();
    let known = vec!["/pics/Wallpapers/Matugen Studio".to_string()];
    add_source_internal(&mut data, SourceKind::UserFolder, "/home/u/Walls", true, "/home/u/Walls", "Walls", true, &known)
        .unwrap();
    assert_eq!(data.sources.len(), 2);
    let id = data.sources[1].id.clone();
    remove_source(&mut data, &id).unwrap();
    let after: Vec<String> = data.sources.iter().map(|s| s.id.clone()).collect();
    assert_eq!(after, before);
}

#[test]
fn adding_a_known_or_missing_folder() {
    let mut data = library(vec![downloads()]);
    let known = vec!["/pics/Wallpapers/Matugen Studio".to_string()];
    add_source_internal(
        &mut data,
        SourceKind::UserFolder,
        "/pics/Wallpapers/Matugen Studio/",
        true,
        "/pics/Wallpapers/Matugen Studio",
        "again",
        true,
        &known,
    )
    .unwrap();
    assert_eq!(data.sources.len(), 1);
    assert_eq!(
        add_source_internal(&mut data, SourceKind::UserFolder, "/nope", false, "/nope", "nope", true, &known)
            .unwrap_err(),
        "Folder does not exist: /nope"
    );
}

#[test]
fn managed_sources_cannot_be_removed() {
    let mut data = library(vec![downloads()]);
    let id = data.sources[0].id.clone();
    assert_eq!(remove_source(&mut data, &id).unwrap_err(), "Managed source cannot be removed");
    assert_eq!(remove_source(&mut data, "missing").unwrap_err(), "Unknown source");
}

#[test]
fn disabling_then_enabling_restores_the_source() {
    let mut data = library(vec![downloads()]);
    let id = data.sources[0].id.clone();
    enable_source(&mut data, &id, false).unwrap();
    assert!(!data.sources[0].enabled);
    enable_source(&mut data, &id, true).unwrap();
    assert!(data.sources[0].enabled);
    assert_eq!(data.sources[0].id, id);
}

#[test]
fn a_recorded_wallpaper_is_read_back() {
    let mut data = library(vec![downloads()]);
    record_provider_path(&mut data, "wallhaven", "abc123", "/cache/abc123.png", true, false, None, 5, 6).unwrap();
    let paths = provider_paths(&data, "wallhaven", "abc123").unwrap();
    assert_eq!(paths.cache.as_deref(), Some("/cache/abc123.png"));
    assert!(paths.saved.is_none() && paths.active.is_none());
    record_provider_path(&mut data, "wallhaven", "abc123", "/saved/abc123.png", true, true, Some("t".into()), 7, 8)
        .unwrap();
    let paths = provider_paths(&data, "wallhaven", "abc123").unwrap();
    assert_eq!(paths.for_colors(), Some("/saved/abc123.png"));
    assert_eq!(paths.for_apply(), Some("/saved/abc123.png"));
    assert_eq!(paths.cache.as_deref(), Some("/cache/abc123.png"));
    assert_eq!(data.provider_records.len(), 1);
    assert_eq!(data.provider_records[0].0, "wallhaven:abc123");
    assert_eq!(data.provider_records[0].1.saved_at, Some(7));
    assert!(record_provider_path(&mut data, "wallhaven", "../x", "/x.png", true, false, None, 0, 0).is_err());
    assert!(record_provider_path(&mut data, "wallhaven", "abc", "/x.txt", false, false, None, 0, 0).is_err());
    assert!(provider_paths(&data, "wallhaven", "a b").is_err());
}

#[test]
fn hiding_history_marks_the_provider_records() {
    let mut data = library(vec![]);
    record_provider_path(&mut data, "wallhaven", "one", "/c/one.png", true, false, None, 1, 1).unwrap();
    record_provider_path(&mut data, "wallhaven", "two", "/c/two.png", true, false, None, 1, 1).unwrap();
    hide_provider_history(&mut data, "wallhaven", Some("one")).unwrap();
    assert!(data.provider_records[0].1.hidden_from_history);
    assert!(!data.provider_records[1].1.hidden_from_history);
    hide_provider_history(&mut data, "wallhaven", None).unwrap();
    assert!(data.provider_records.iter().all(|(_, r)| r.hidden_from_history));
    assert!(hide_provider_history(&mut data, "wall haven", None).is_err());
}

#[test]
fn a_new_download_root_keeps_the_old_one_as_an_archive() {
    let mut data = library(vec![downloads()]);
    let known = vec!["/pics/Wallpapers/Matugen Studio".to_string()];
    change_download_root(&mut data, "/data/New", "/pics/Wallpapers/Matugen Studio", &known);
    assert_eq!(data.download_root, "/data/New");
    assert_eq!(data.sources.len(), 2);
    assert_eq!(data.sources[0].kind, SourceKind::MatugenDownloads);
    assert_eq!(data.sources[0].path, "/data/New");
    assert_eq!(data.sources[1].kind, SourceKind::DownloadArchive);
    assert!(!data.sources[1].removable);
    assert_eq!(data.sources[1].display_name, "Previous Matugen downloads");
}

#[test]
fn downloaded_bytes_are_checked_before_saving() {
    let bytes = png_bytes();
    let target = save_bytes_target("/lib/Wallhaven", "abc123", "png", &bytes).unwrap();
    assert_eq!(target.base, "/lib/Wallhaven/abc123.png");
    let hash = format!("{:x}", md5::compute(&bytes));
    assert_eq!(target.alternate, format!("/lib/Wallhaven/abc123-{}.png", &hash[..12]));
    assert_eq!(save_bytes_target("/lib", "abc123", "jpg", &bytes).unwrap_err(), "Invalid image content");
    assert_eq!(save_bytes_target("/lib", "abc123", "gif", &bytes).unwrap_err(), "Invalid wallpaper filename");
    assert_eq!(save_bytes_target("/lib", "abc123", "png", &[]).unwrap_err(), "Invalid image size");
}

#[test]
fn cached_kde_wallpapers_are_promoted() {
    let plan = stabilize_kde_path_at(
        "/home/u/.cache/matugen-studio/wallhaven/abc.PNG",
        "/home/u/.cache",
        "/home/u/.local/share",
        true,
        "/home/u/.cache/matugen-studio",
        "/home/u/.cache/matugen-studio/wallhaven/abc.PNG",
    )
    .unwrap()
    .unwrap();
    assert_eq!(plan.dir, "/home/u/.local/share/matugen-studio/active-wallpapers/wallhaven");
    assert_eq!(plan.provider, "wallhaven");
    assert_eq!(plan.id, "abc");
    assert_eq!(plan.ext, "png");
    assert!(stabilize_kde_path_at("/pics/a.png", "/home/u/.cache", "/d", true, "/c", "/pics/a.png")
        .unwrap()
        .is_none());
    assert_eq!(
        stabilize_kde_path_at("/home/u/.cache/matugen-studio/x.png", "/home/u/.cache", "/d", false, "/c", "/c/x.png")
            .unwrap_err(),
        "Cached wallpaper is unavailable or invalid"
    );
}

#[test]
fn scans_are_sorted_and_mark_saved_downloads() {
    let item = |path: &str| WallpaperItem {
        path: path.to_string(),
        file_name: path.rsplit('/').next().unwrap().to_string(),
        source_id: "s".to_string(),
        source_kind: SourceKind::UserFolder,
        provider: None,
        provider_id: None,
    };
    let items = vec![item("/w/b.png"), item("/w/a.png"), item("/w/c.png")];
    let saved = vec![("/w/c.png".to_string(), "wallhaven".to_string(), "c1".to_string())];
    let out = finish_scan(items, &saved);
    let paths: Vec<&str> = out.iter().map(|i| i.path.as_str()).collect();
    assert_eq!(paths, vec!["/w/a.png", "/w/b.png", "/w/c.png"]);
    assert_eq!(out[2].provider.as_deref(), Some("wallhaven"));
    assert_eq!(out[2].provider_id.as_deref(), Some("c1"));
    assert!(out[0].provider.is_none());
}

#[test]
fn legacy_history_only_recovers_live_cache() {
    let mut data = library(vec![]);
    let entries = vec![
        LegacyHistoryEntry {
            id: "live".into(),
            local_path: "/t/cache/live.png".into(),
            thumb: Some("thumb".into()),
            downloaded_at: Some(1),
        },
        LegacyHistoryEntry { id: "outside".into(), local_path: "/t/outside.png".into(), thumb: None, downloaded_at: None },
        LegacyHistoryEntry { id: "missing".into(), local_path: "/t/cache/gone.png".into(), thumb: None, downloaded_at: None },
    ];
    let is_image = vec![true, true, false];
    let normalized: Vec<String> = entries.iter().map(|e| e.local_path.clone()).collect();
    migrate_legacy_history(&mut data, &entries, &is_image, &normalized, "/t/cache");
    let record = |key: &str| data.provider_records.iter().find(|(k, _)| k == key).unwrap().1.clone();
    assert!(record("wallhaven:live").cache_path.is_some());
    assert!(record("wallhaven:live").saved_path.is_none());
    assert!(record("wallhaven:outside").cache_path.is_none());
    assert!(record("wallhaven:missing").cache_path.is_none());
}

#[test]
fn missing_disabled_and_removable_sources_are_safe() {
    let mut data = library(vec![]);
    add_source_internal(&mut data, SourceKind::UserFolder, "/t", true, "/t", "user", true, &vec![]).unwrap();
    let known = vec!["/t".to_string()];
    add_source_internal(&mut data, SourceKind::UserFolder, "/t", true, "/t", "duplicate", true, &known).unwrap();
    assert_eq!(data.sources.len(), 1);
    let user = data.sources[0].id.clone();
    enable_source(&mut data, &user, false).unwrap();
    assert!(!data.sources[0].enabled);
    enable_source(&mut data, &user, true).unwrap();
    data.sources.push(source(SourceKind::KdeSystem, "/t/missing", "missing", true, false));
    let system_id = data.sources[1].id.clone();
    assert!(remove_source(&mut data, &system_id).is_err());
    remove_source(&mut data, &user).unwrap();
    assert_eq!(data.sources.len(), 1);
}

#[test]
fn overlapping_sources_and_current_wallpaper_are_deduplicated() {
    let system = source(SourceKind::KdeSystem, "/t", "system", true, false);
    let user = source(SourceKind::UserFolder, "/t", "user", true, true);
    let mut state = ScanState::new(&system);
    for s in [&system, &user] {
        for file in ["/t/a.png", "/t/other.png"] {
            state.scan_entry(s, 0, file, EntryType::File, true, file);
        }
    }
    state.add_current("/t/a.png", "/t/a.png", true);
    assert_eq!(state.items.len(), 2);
    state.add_current("/u/external.png", "/u/external.png", true);
    assert_eq!(state.items.len(), 3);
    assert_eq!(state.items.iter().filter(|i| i.source_kind == SourceKind::CurrentWallpaper).count(), 1);
    assert!(state.items.iter().take(2).all(|i| i.source_kind == SourceKind::KdeSystem));
}

#[test]
fn disabled_and_missing_download_sources_are_not_scanned() {
    let mut user = source(SourceKind::UserFolder, "/home/u/Walls", "Walls", true, true);
    assert!(!scan_skips_source(&user, false));
    assert!(!scan_skips_source(&user, true));
    user.enabled = false;
    assert!(scan_skips_source(&user, true));
    let dl = downloads();
    assert!(scan_skips_source(&dl, false));
    assert!(!scan_skips_source(&dl, true));
}

#[test]
fn image_signatures_decide_the_format() {
    let png = b"\x89PNG\r\n\x1a\nrest";
    assert!(image_matches_extension("/a/x.png", png));
    assert!(!image_matches_extension("/a/x.jpg", png));
    assert!(image_matches_extension("/a/x.JPEG", &[0xff, 0xd8, 0xff, 0x00]));
    assert!(image_matches_extension("/a/x.webp", b"RIFF\x01\x02\x03\x04WEBPVP8 "));
    assert!(!image_matches_extension("/a/x.webp", b"RIFF\x01\x02\x03\x04WEBQ"));
    assert!(!image_matches_extension("/a/x.png", b"GIF89a"));
}
