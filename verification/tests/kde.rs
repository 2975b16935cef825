use matugen_studio::context::{ColorEntry, ColorRole, ColorVariant, SchemeContext};
use matugen_studio::kde::{
    apply_color_values, color_values, generate_kde_colorscheme, get_color, get_color_or, hex_to_rgb_string,
    kde_color_mappings, normalize_wallpaper_path, read_ini_value, rgb_to_hex, should_run_in_background,
    swap_scheme_text, upsert_ini_value, wallpaper_file_name, KdeColorValue, KdeServiceStatus,
    KdeWatcherOptions, KdeWatcherSnapshot,
};

fn role(name: &str, key: &str, value: &str) -> ColorRole {
    let entry = if key == "color" {
        ColorEntry { hex: None, color: Some(value.to_string()) }
    } else {
        ColorEntry { hex: Some(value.to_string()), color: None }
    };
    ColorRole { name: name.to_string(), variants: vec![ColorVariant { name: "default".to_string(), entry }] }
}

#[test]
fn colors_survive_a_round_trip_through_kde_rgb() {
    assert_eq!(hex_to_rgb_string("#1A2B3C").unwrap(), "26,43,60");
    assert_eq!(rgb_to_hex("26,43,60"), "#1A2B3C");
    assert_eq!(rgb_to_hex(&hex_to_rgb_string(" #ff8000 ").unwrap()), "#FF8000");
    assert_eq!(rgb_to_hex("10, 20 ,30"), "#0A141E");
    assert_eq!(rgb_to_hex("10,20,300"), "#000000");
    assert_eq!(hex_to_rgb_string("#12345").unwrap_err(), "Color must use #RRGGBB format");
}

#[test]
fn a_written_value_reads_back_in_its_group() {
    let content = "[Colors:Window]\nBackgroundNormal=1,1,1\nForegroundNormal=9,9,9\n[Colors:View]\nBackgroundNormal=2,2,2\n";
    let updated = upsert_ini_value(content, "Colors:View", "BackgroundNormal", "7,8,9");
    assert_eq!(
        updated,
        "[Colors:Window]\nBackgroundNormal=1,1,1\nForegroundNormal=9,9,9\n[Colors:View]\nBackgroundNormal=7,8,9\n"
    );
    assert_eq!(read_ini_value(&updated, "Colors:View", "BackgroundNormal").as_deref(), Some("7,8,9"));
    assert_eq!(read_ini_value(&updated, "Colors:Window", "BackgroundNormal").as_deref(), Some("1,1,1"));
    let added = upsert_ini_value(content, "Colors:Window", "ForegroundLink", "3,4,5");
    assert_eq!(read_ini_value(&added, "Colors:Window", "ForegroundLink").as_deref(), Some("3,4,5"));
    assert!(read_ini_value(content, "Colors:Missing", "BackgroundNormal").is_none());
}

#[test]
fn the_swap_scheme_is_renamed() {
    assert_eq!(
        swap_scheme_text("[General]\nColorScheme=MatugenStudio\nName=MatugenStudio\n"),
        "[General]\nColorScheme=MatugenStudioSwap\nName=MatugenStudioSwap\n"
    );
}

#[test]
fn reported_wallpaper_paths_are_normalized() {
    assert_eq!(
        normalize_wallpaper_path("'file:///home/u/My%20Pictures/a%2Bb.png'").as_deref(),
        Some("/home/u/My Pictures/a+b.png")
    );
    assert_eq!(
        normalize_wallpaper_path("Image: file:///home/u/x.png\nother").as_deref(),
        Some("/home/u/x.png")
    );
    assert!(normalize_wallpaper_path("null").is_none());
    assert!(normalize_wallpaper_path("relative.png").is_none());
    assert_eq!(wallpaper_file_name("/home/u/x.png"), "x.png");
}

#[test]
fn a_handled_wallpaper_is_not_handled_again() {
    let mut snapshot = KdeWatcherSnapshot::default();
    snapshot.enabled = true;
    assert!(snapshot.should_handle("/w/a.png"));
    snapshot.processing_started("/w/a.png");
    assert!(!snapshot.should_handle("/w/b.png"));
    snapshot.processing_finished("/w/a.png", Ok(()));
    assert!(!snapshot.should_handle("/w/a.png"));
    assert!(snapshot.should_handle("/w/b.png"));
    assert_eq!(snapshot.status_message, "Theme applied from a.png.");
    snapshot.mark_stopped();
    assert!(!snapshot.should_handle("/w/b.png"));
}

#[test]
fn scheme_colors_drop_alpha_and_fall_back() {
    let ctx = SchemeContext {
        roles: vec![role("primary", "color", "#11223344"), role("surface", "hex", "#0a0b0c")],
    };
    assert_eq!(get_color(&ctx, "primary", "default"), "#112233");
    assert_eq!(get_color(&ctx, "missing", "default"), "#000000");
    assert_eq!(get_color_or(&ctx, "surface_dim", "surface", "default"), "#0a0b0c");
}

#[test]
fn generated_scheme_writes_roles_as_rgb() {
    let ctx = SchemeContext {
        roles: vec![
            role("primary", "color", "#112233ff"),
            role("surface", "hex", "#0a0b0c"),
            role("surface_container_low", "hex", "#010203"),
            role("on_surface", "hex", "#fafbfc"),
        ],
    };
    let text = generate_kde_colorscheme(&ctx, "MatugenStudio");
    assert_eq!(read_ini_value(&text, "Colors:Window", "BackgroundNormal").as_deref(), Some("1,2,3"));
    assert_eq!(read_ini_value(&text, "Colors:Window", "ForegroundNormal").as_deref(), Some("250,251,252"));
    assert_eq!(read_ini_value(&text, "Colors:Window", "DecorationFocus").as_deref(), Some("17,34,51"));
    assert_eq!(read_ini_value(&text, "General", "Name").as_deref(), Some("MatugenStudio"));
}

#[test]
fn an_edited_kde_color_reads_back() {
    let content = "[Colors:Window]\nBackgroundNormal=1,2,3\n\n[Colors:View]\nBackgroundNormal=4,5,6\n";
    let before = color_values(content);
    assert_eq!(before.len(), 2);
    assert_eq!(before[0].key, "windowBackground");
    assert_eq!(before[0].hex, "#010203");
    let edits = vec![
        KdeColorValue { key: "windowBackground".to_string(), hex: "#a0b1c2".to_string() },
        KdeColorValue { key: "unknown".to_string(), hex: "nonsense".to_string() },
    ];
    let written = apply_color_values(content, &edits).unwrap();
    let after = color_values(&written);
    assert_eq!(after[0].hex, "#A0B1C2");
    assert_eq!(after[1].hex, "#040506");
    let bad = vec![KdeColorValue { key: "button".to_string(), hex: "#12".to_string() }];
    assert_eq!(apply_color_values(content, &bad).unwrap_err(), "Color must use #RRGGBB format");
    assert_eq!(kde_color_mappings().len(), 9);
}

#[test]
fn the_watcher_status_round_trips() {
    let status = KdeServiceStatus::default();
    assert!(!status.enabled);
    assert_eq!(status.poll_interval_secs, 10);
    assert_eq!(status.scheme_type, "Tinted Smart");
    assert!(status.gtk_dark);
    assert!(KdeWatcherOptions::from_status(&status).is_none());
    let enabled = KdeServiceStatus { enabled: true, poll_interval_secs: 2, ..status.clone() };
    let options = KdeWatcherOptions::from_status(&enabled).unwrap();
    let mut snapshot = KdeWatcherSnapshot::default();
    snapshot.begin_monitoring(options, true, Some("/w/a.png".to_string()));
    assert!(snapshot.enabled && snapshot.run_in_background);
    assert_eq!(snapshot.poll_interval_secs, 5);
    assert_eq!(snapshot.status_message, "Monitoring KDE wallpaper changes.");
    assert!(!snapshot.should_handle("/w/a.png"));
    assert!(snapshot.should_handle("/w/b.png"));
    let persisted = snapshot.service_status(true);
    assert_eq!(persisted.current_wallpaper.as_deref(), Some("/w/a.png"));
    assert!(should_run_in_background(&Ok(persisted)));
    assert!(!should_run_in_background(&Err("x".to_string())));
    snapshot.processing_started("/w/b.png");
    assert!(!snapshot.should_handle("/w/c.png"));
    snapshot.processing_finished("/w/b.png", Err("boom".to_string()));
    assert_eq!(snapshot.status_message, "Theme generation failed for b.png.");
    assert_eq!(snapshot.last_error.as_deref(), Some("boom"));
    snapshot.mark_stopped();
    assert_eq!(snapshot.status_message, "Service stopped.");
}

#[test]
fn every_color_mapping_reads_from_a_generated_scheme() {
    for ctx in [
        SchemeContext { roles: vec![] },
        SchemeContext { roles: vec![role("primary", "hex", "#123456"), role("surface", "hex", "#654321")] },
    ] {
        let text = generate_kde_colorscheme(&ctx, "MatugenStudio");
        let values = color_values(&text);
        assert_eq!(values.len(), kde_color_mappings().len());
        for m in kde_color_mappings() {
            assert!(read_ini_value(&text, m.section, m.property).is_some(), "{}", m.key);
        }
    }
}

#[test]
fn an_upsert_leaves_other_entries_as_they_read() {
    let content = "[Colors:Window]\nBackgroundNormal=1,2,3\nForegroundNormal=4,5,6\n\n[Colors:View]\nBackgroundNormal=7,8,9\n";
    let out = upsert_ini_value(content, "Colors:Window", "BackgroundNormal", "10,11,12");
    assert_eq!(read_ini_value(&out, "Colors:Window", "BackgroundNormal").as_deref(), Some("10,11,12"));
    assert_eq!(read_ini_value(&out, "Colors:Window", "ForegroundNormal").as_deref(), Some("4,5,6"));
    assert_eq!(read_ini_value(&out, "Colors:View", "BackgroundNormal").as_deref(), Some("7,8,9"));
    assert_eq!(read_ini_value(&out, "Colors:View", "Missing"), None);
    assert_eq!(rgb_to_hex("not,a,color"), "#000000");
}

#[test]
fn a_property_starting_with_a_bracket_reads_back_unless_its_value_closes_it() {
    let content = "[S]\nx=1\n";
    let updated = upsert_ini_value(content, "S", "[p", "v");
    assert_eq!(read_ini_value(&updated, "S", "[p").as_deref(), Some("v"));
    assert_eq!(read_ini_value(&updated, "S", "x").as_deref(), Some("1"));
    let closed = upsert_ini_value(content, "S", "[p", "v]");
    assert_eq!(read_ini_value(&closed, "S", "[p"), None);
}
