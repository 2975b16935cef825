use matugen_studio::context::{ColorEntry, ColorRole, ColorVariant, SchemeContext};
use matugen_studio::gtk::{
    color_scheme_command, css_backup_extension, gtk_palette, gtk_theme_command, gtk_theme_names,
    index_theme_text, normalize_hex, recolor_defines, rewrite_css_colors, upsert_ini_setting,
    with_generated_marker, GtkPalette,
};
use matugen_studio::kde::read_ini_value;

fn role(name: &str, hex: &str) -> ColorRole {
    ColorRole {
        name: name.to_string(),
        variants: vec![ColorVariant {
            name: "default".to_string(),
            entry: ColorEntry { hex: None, color: Some(hex.to_string()) },
        }],
    }
}

fn palette() -> GtkPalette {
    GtkPalette {
        primary: "#112233".into(),
        on_primary: "#FFFFFF".into(),
        secondary: "#223344".into(),
        on_secondary: "#EEEEEE".into(),
        tertiary: "#334455".into(),
        on_tertiary: "#DDDDDD".into(),
        error: "#AA0000".into(),
        on_error: "#FFEEEE".into(),
        surface: "#101010".into(),
        on_surface: "#F0F0F0".into(),
        surface_container: "#202020".into(),
        surface_container_high: "#303030".into(),
        surface_container_low: "#181818".into(),
    }
}

#[test]
fn hex_colors_are_normalized_to_six_upper_case_digits() {
    assert_eq!(normalize_hex("  #aabbccdd ").as_deref(), Some("#AABBCC"));
    assert_eq!(normalize_hex("#a1b2c3").as_deref(), Some("#A1B2C3"));
    assert!(normalize_hex("#abc").is_none());
    assert!(normalize_hex("aabbcc").is_none());
}

#[test]
fn the_palette_falls_back_and_reports_the_first_missing_color() {
    let names = [
        "primary", "on_primary", "secondary", "on_secondary", "tertiary", "on_tertiary", "error",
        "on_error", "surface", "on_surface",
    ];
    let mut roles: Vec<ColorRole> = names.iter().map(|n| role(n, "#010203ff")).collect();
    roles.push(role("surface_variant", "#0a0b0c"));
    let palette = gtk_palette(&SchemeContext { roles: roles.clone() }).unwrap();
    assert_eq!(palette.primary, "#010203");
    assert_eq!(palette.surface_container, "#010203");
    assert_eq!(palette.surface_container_high, "#0A0B0C");
    roles.remove(2);
    assert_eq!(
        gtk_palette(&SchemeContext { roles }).unwrap_err(),
        "Required GTK color 'secondary' is missing"
    );
}

#[test]
fn define_colors_are_recolored_with_their_indent() {
    let css = "  @define-color accent_bg_color #3584e4;\n@define-color unknown_color red;\nbody {}";
    assert_eq!(
        recolor_defines(css, &palette()),
        "  @define-color accent_bg_color #112233;\n@define-color unknown_color red;\nbody {}"
    );
}

#[test]
fn css_variables_take_the_palette_colors() {
    let css = ":root {\n  --accent-bg-color: #3584e4;\n  --window-fg-color: rgb(0, 0, 0);\n  --card-bg-color: var(--x);\n}\n";
    assert_eq!(
        rewrite_css_colors(css, &palette()),
        ":root {\n  --accent-bg-color: #112233;\n  --window-fg-color: #F0F0F0;\n  --card-bg-color: #303030;\n}"
    );
}

#[test]
fn the_settings_file_reads_back_the_theme_it_was_given() {
    let cases = ["", "[Settings]\n", "[Settings]\ngtk-theme-name=Adwaita\n", "[Other]\na=b\n", "x=y"];
    for content in cases {
        let written = upsert_ini_setting(content, "gtk-theme-name", "Matugen-Adw");
        assert_eq!(
            read_ini_value(&written, "Settings", "gtk-theme-name").as_deref(),
            Some("Matugen-Adw"),
            "content {:?}",
            content
        );
    }
    assert_eq!(
        upsert_ini_setting("[Other]\na=b\n", "gtk-theme-name", "T"),
        "[Other]\na=b\n\n[Settings]\ngtk-theme-name=T\n"
    );
    assert_eq!(
        upsert_ini_setting("[Settings]\ngtk-theme-name=Old\n[Other]\n", "gtk-theme-name", "T"),
        "[Settings]\ngtk-theme-name=T\n[Other]\n"
    );
}

#[test]
fn theme_files_and_commands() {
    assert_eq!(gtk_theme_names(true), ("adw-gtk3-dark", "Matugen-Adw-Dark"));
    assert_eq!(gtk_theme_names(false), ("adw-gtk3", "Matugen-Adw"));
    assert_eq!(
        index_theme_text("Matugen-Adw", false),
        "[X-GNOME-Metatheme]\nName=Matugen-Adw\nType=X-GNOME-Metatheme\nComment=Matugen generated light adw-gtk3 theme\nEncoding=UTF-8\nGtkTheme=Matugen-Adw\n"
    );
    assert_eq!(
        gtk_theme_command("Matugen-Adw"),
        "gsettings set org.gnome.desktop.interface gtk-theme 'Matugen-Adw'"
    );
    assert_eq!(
        color_scheme_command(true),
        "gsettings set org.gnome.desktop.interface color-scheme 'prefer-dark'"
    );
    assert_eq!(
        color_scheme_command(false),
        "gsettings set org.gnome.desktop.interface color-scheme 'default'"
    );
    assert!(with_generated_marker("/* Generated by Matugen Studio */").is_none());
    assert_eq!(
        with_generated_marker("a {}").unwrap(),
        "/* Generated by Matugen Studio. Previous user CSS is backed up next to this file. */\na {}"
    );
    assert_eq!(css_backup_extension(Some("css")), "css.matugen-studio.bak");
    assert_eq!(css_backup_extension(None), "bak.matugen-studio.bak");
}
