use matugen_studio::template_meta::{template_info, TemplateInfo};

/// The templates that ship with the application, by their path under the
/// bundled themes folder.
const BUNDLED: &[&str] = &[
    "Matugen.colors",
    "aerc",
    "alacritty.toml",
    "btop.theme",
    "cava-colors.ini",
    "discord-material.css",
    "firefox-colors.css",
    "foot-colors.ini",
    "ghostty",
    "ghostwriter.json",
    "gtk-colors.css",
    "helix.toml",
    "heroic.css",
    "kitty-colors.conf",
    "kvantum-colors.kvconfig",
    "kvantum-colors.svg",
    "matugen.obt",
    "mcfly.toml",
    "micro.micro",
    "midnight-discord.css",
    "neovim/template.lua",
    "nvim-colors.vim",
    "obsidian.css",
    "opencode-colors.json",
    "papirus-color",
    "prismlauncher.json",
    "pywalfox-colors.json",
    "qtct-colors.conf",
    "rmpc.ron",
    "spicetify.ini",
    "starship-colors.toml",
    "steam.css",
    "system24.css",
    "telegram.tdesktop-theme",
    "television.toml",
    "terminal-sequences",
    "tmux-colors.conf",
    "vivaldi.css",
    "vscode-colors",
    "vscode-colors.json",
    "vscode-material-premium.json",
    "wezterm_theme.toml",
    "wine.reg",
    "yazi-theme.toml",
    "zathura-colors",
    "zed-colors.json",
    "zellij-theme.kdl.tera",
    "zen-userchrome.css",
    "zen-usercontent.css",
];

const WEBSITES: &[&str] = &["youtube.css"];

fn bundled_templates() -> Vec<TemplateInfo> {
    let mut templates: Vec<TemplateInfo> = BUNDLED
        .iter()
        .map(|rel| template_info(&format!("/bundled/matugen-themes/templates/{rel}"), rel, 0, true))
        .collect();
    for name in WEBSITES {
        templates.push(template_info(
            &format!("/bundled/matugen-themes/websites/{name}"),
            &format!("websites/{name}"),
            0,
            false,
        ));
    }
    templates
}

#[test]
fn bundled_catalog_has_no_leftover_non_kde_wm_templates() {
    let templates = bundled_templates();
    assert!(!templates.is_empty());

    let banned_needles = [
        "hyprland",
        "hyprwat",
        "niri",
        "sway",
        "labwc",
        "mango",
        "cosmic",
        "gnome-shell",
        "rofi",
        "fuzzel",
        "waybar",
        "wofi",
        "swaync",
        "mako",
        "quickshell",
        "dunst",
        "clipse",
        "windows_term",
    ];
    for template in &templates {
        let haystack = format!(
            "{} {} {}",
            template.relative_path.to_lowercase(),
            template.display_name.to_lowercase(),
            template.target_app.to_lowercase()
        );
        for needle in banned_needles {
            assert!(
                !haystack.contains(needle),
                "template '{}' should have been filtered out (matched '{}')",
                template.relative_path,
                needle
            );
        }
    }
}

#[test]
fn bundled_catalog_includes_newly_added_kde_relevant_templates() {
    let templates = bundled_templates();
    let names: Vec<&str> = templates.iter().map(|t| t.relative_path.as_str()).collect();
    for expected in [
        "aerc",
        "foot-colors.ini",
        "ghostwriter.json",
        "system24.css",
        "vscode-colors",
        "vscode-colors.json",
        "zen-userchrome.css",
        "zen-usercontent.css",
        "papirus-color",
    ] {
        assert!(
            names.contains(&expected),
            "missing newly added template: {expected}"
        );
    }
}

#[test]
fn every_bundled_template_has_a_curated_category() {
    let templates = bundled_templates();
    let allowed = [
        "KDE Plasma",
        "Terminals",
        "Shell Tools",
        "Browsers",
        "Editors",
        "Apps",
        "Websites",
    ];
    for template in &templates {
        assert!(
            allowed.contains(&template.category.as_str()),
            "template '{}' has unexpected category '{}'",
            template.relative_path,
            template.category
        );
    }
}

#[test]
fn manual_steps_are_i18n_keys_not_literal_english_text() {
    let templates = bundled_templates();
    for template in &templates {
        for step in &template.manual_steps {
            assert!(
                step.starts_with("templates.steps."),
                "template '{}' has a manual step that isn't an i18n key: '{}'",
                template.relative_path,
                step
            );
        }
    }
}

#[test]
fn heroic_metadata_has_deterministic_default() {
    let templates = bundled_templates();
    let heroic = templates
        .iter()
        .find(|t| t.relative_path == "heroic.css")
        .expect("heroic.css must exist in bundled templates");

    assert_eq!(heroic.target_app, "Heroic Games Launcher");
    assert_eq!(heroic.category, "Apps");
    assert_eq!(heroic.automation_level, "config-patch");
    assert_eq!(
        heroic.default_output_path.as_deref(),
        Some("~/.config/heroic/themes/matugen.css")
    );
    assert_eq!(
        heroic.manual_steps,
        vec![
            "templates.steps.heroicCustomThemesPath".to_string(),
            "templates.steps.heroicSelectTheme".to_string(),
        ]
    );
}
