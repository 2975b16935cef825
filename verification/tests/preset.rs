use matugen_studio::preset::{
    exported_wallpaper, import_wallpaper_step, missing_original_warning, WallpaperImportAction, WallpaperInfo,
    check_export_path, check_import_path, expand_tilde_str, imported_wallpaper_name, installed_snapshot,
    iso8601_from_epoch_secs, legacy_snapshot, legacy_wallpaper, mime_type_from_filename,
    missing_wallpaper_warning, restored_template_warning, snapshot_name, target_app_of, unique_preset_name,
    validate_imported_filename, wallpaper_info_from_path,
};

#[test]
fn imported_filenames_cannot_escape_their_target_directory() {
    assert!(validate_imported_filename("../../.bashrc", "wallpaper").is_err());
    assert!(validate_imported_filename("/tmp/payload", "template").is_err());
    assert!(validate_imported_filename("folder\\payload", "template").is_err());
    assert_eq!(
        validate_imported_filename("theme.css", "template").unwrap(),
        "theme.css"
    );
}

#[test]
fn imported_filename_error_names_the_label_and_value() {
    assert_eq!(
        validate_imported_filename("a/b.png", "wallpaper").unwrap_err(),
        "Invalid wallpaper filename 'a/b.png': directory components are not allowed"
    );
}

#[test]
fn timestamps_are_utc_iso8601() {
    assert_eq!(iso8601_from_epoch_secs(0), "1970-01-01T00:00:00Z");
    assert_eq!(iso8601_from_epoch_secs(951_782_400), "2000-02-29T00:00:00Z");
    assert_eq!(iso8601_from_epoch_secs(1_700_000_000), "2023-11-14T22:13:20Z");
}

#[test]
fn preset_names_are_numbered_when_taken() {
    let existing = vec!["Ocean".to_string(), "Ocean (1)".to_string()];
    assert_eq!(unique_preset_name(&existing, "Forest"), "Forest");
    assert_eq!(unique_preset_name(&existing, "Ocean"), "Ocean (2)");
}

#[test]
fn mime_types_follow_the_extension() {
    assert_eq!(mime_type_from_filename("a.PNG"), "image/png");
    assert_eq!(mime_type_from_filename("a.jpeg"), "image/jpeg");
    assert_eq!(mime_type_from_filename("a.webp"), "image/webp");
    assert_eq!(mime_type_from_filename("a.jxl"), "image/jxl");
    assert_eq!(mime_type_from_filename("a.gif"), "application/octet-stream");
}

#[test]
fn wallpaper_info_records_the_path() {
    let w = wallpaper_info_from_path("/home/u/Pictures/sea.jpg");
    assert_eq!(w.filename.as_deref(), Some("sea.jpg"));
    assert_eq!(w.original_path.as_deref(), Some("/home/u/Pictures/sea.jpg"));
    assert_eq!(w.mime_type.as_deref(), Some("image/jpeg"));
    assert!(w.base64.is_none() && w.sha256.is_none());
}

#[test]
fn snapshots_are_named_after_their_input() {
    assert_eq!(snapshot_name("kitty_conf", Some("/x/templates/kitty.conf")), "kitty.conf");
    assert_eq!(snapshot_name("kitty_conf", None), "kitty.conf");
    assert_eq!(target_app_of("kitty_conf"), "kitty");
    let s = installed_snapshot(
        "gtk_css",
        Some("~/t/gtk.css".to_string()),
        Some("~/out.css".to_string()),
        Some("reload".to_string()),
        Some("{{ x }}".to_string()),
    );
    assert_eq!(s.name, "gtk.css");
    assert_eq!(s.target_app.as_deref(), Some("gtk"));
    assert!(s.enabled);
    assert_eq!(s.post_hook.as_deref(), Some("reload"));
    assert_eq!(s.content.as_deref(), Some("{{ x }}"));
    assert!(s.template_type.is_none() && s.pre_hook.is_none());
}

#[test]
fn version_one_exports_migrate() {
    let s = legacy_snapshot("waybar_css".to_string());
    assert_eq!(s.name, "waybar_css");
    assert_eq!(s.target_app.as_deref(), Some("waybar"));
    assert!(s.input_path.is_none() && s.content.is_none());
    assert!(legacy_wallpaper(None, None).is_none());
    let w = legacy_wallpaper(Some("AAAA".to_string()), Some("bg.png".to_string())).unwrap();
    assert_eq!(w.base64.as_deref(), Some("AAAA"));
    assert_eq!(w.mime_type.as_deref(), Some("image/png"));
    assert!(w.original_path.is_none());
}

#[test]
fn export_and_import_paths_need_the_extension() {
    assert!(check_export_path("/tmp/a.matugen").is_ok());
    assert_eq!(
        check_export_path("/tmp/a.json").unwrap_err(),
        "Output file must have .matugen extension"
    );
    assert!(check_import_path("a.matugen").is_ok());
    assert_eq!(check_import_path("a.txt").unwrap_err(), "File must have .matugen extension");
}

#[test]
fn import_warnings_name_the_file() {
    assert_eq!(
        missing_wallpaper_warning("/x/y.png"),
        "Wallpaper '/x/y.png' not found on disk. Re-select it manually."
    );
    assert!(restored_template_warning("kitty.conf").starts_with("Template 'kitty.conf' was restored"));
}

#[test]
fn embedded_wallpapers_get_a_checked_name() {
    assert_eq!(imported_wallpaper_name(None).unwrap(), "wallpaper.png");
    assert_eq!(imported_wallpaper_name(Some("sea.jpg")).unwrap(), "sea.jpg");
    assert!(imported_wallpaper_name(Some("../sea.jpg")).is_err());
}

#[test]
fn tilde_expands_to_home() {
    assert_eq!(expand_tilde_str("~/a/b", Some("/home/u")), "/home/u/a/b");
    assert_eq!(expand_tilde_str("~/a", None), "~/a");
    assert_eq!(expand_tilde_str("/abs", Some("/home/u")), "/abs");
}

#[test]
fn exported_wallpapers_embed_base64_and_sha256() {
    let wp = WallpaperInfo {
        filename: Some("old.jpg".to_string()),
        original_path: Some("/pics/old.jpg".to_string()),
        base64: None,
        mime_type: Some("image/jpeg".to_string()),
        sha256: None,
    };
    let out = exported_wallpaper(&wp, Some("new.PNG".to_string()), b"hello");
    assert_eq!(out.filename.as_deref(), Some("new.PNG"));
    assert_eq!(out.mime_type.as_deref(), Some("image/png"));
    assert_eq!(out.original_path.as_deref(), Some("/pics/old.jpg"));
    assert_eq!(out.base64.as_deref(), Some("aGVsbG8="));
    assert_eq!(
        out.sha256.as_deref(),
        Some("2cf24dba5fb0a30e26e83b2ac5b9e29e1b161e5c1fa7425e73043362938b9824")
    );
    let kept = exported_wallpaper(&wp, None, b"");
    assert_eq!(kept.filename.as_deref(), Some("old.jpg"));
    assert_eq!(kept.mime_type.as_deref(), Some("image/jpeg"));
    assert_eq!(kept.base64.as_deref(), Some(""));
}

#[test]
fn imported_wallpapers_decode_or_warn() {
    match import_wallpaper_step("aGVsbG8=", false, "/cfg/shared/w.png") {
        WallpaperImportAction::Write { bytes, new_original_path } => {
            assert_eq!(bytes, b"hello".to_vec());
            assert_eq!(new_original_path.as_deref(), Some("/cfg/shared/w.png"));
        }
        other => panic!("unexpected {:?}", other),
    }
    match import_wallpaper_step("aGVsbG8=", true, "/cfg/shared/w.png") {
        WallpaperImportAction::Write { new_original_path, .. } => assert!(new_original_path.is_none()),
        other => panic!("unexpected {:?}", other),
    }
    match import_wallpaper_step("!!!!", false, "/cfg/shared/w.png") {
        WallpaperImportAction::Warn(w) => assert_eq!(w, "Could not decode wallpaper: Invalid symbol 33, offset 0."),
        other => panic!("unexpected {:?}", other),
    }
    assert_eq!(
        missing_original_warning(Some("/gone.png"), false).as_deref(),
        Some("Wallpaper '/gone.png' not found on disk. Re-select it manually.")
    );
    assert!(missing_original_warning(Some("/here.png"), true).is_none());
    assert!(missing_original_warning(None, false).is_none());
}
