use matugen_studio::catalog::CatalogPaths;
use matugen_studio::catalog_build::{
    build_template_catalog, is_matugen_template, sort_templates, website_relative_path, CatalogMetadata,
    CatalogMetadataApp, CatalogMetadataTarget, CatalogMetadataVariant,
};
use matugen_studio::template_meta::{template_info, TemplateInfo};

fn paths() -> CatalogPaths {
    CatalogPaths {
        home: "/home/u".to_string(),
        config: "/home/u/.config".to_string(),
        data: "/home/u/.local/share".to_string(),
        cache: "/home/u/.cache".to_string(),
        state: "/home/u/.local/state".to_string(),
    }
}

fn templates() -> Vec<TemplateInfo> {
    vec![
        template_info("/t/templates/kitty-colors.conf", "kitty-colors.conf", 10, true),
        template_info("/t/templates/heroic.css", "heroic.css", 20, true),
    ]
}

fn metadata(level: Option<&str>) -> CatalogMetadata {
    CatalogMetadata {
        applications: vec![CatalogMetadataApp {
            id: "heroic".into(),
            name: "Heroic Games Launcher".into(),
            category: "Apps".into(),
            variants: vec![CatalogMetadataVariant {
                id: "heroic".into(),
                name: "Heroic".into(),
                source_path: "heroic.css".into(),
                description: None,
                source: None,
                automation_level: level.map(String::from),
                manual_steps: None,
                targets: vec![CatalogMetadataTarget {
                    id: "native".into(),
                    label: "Native".into(),
                    install_type: "native".into(),
                    source_path: None,
                    output_path: "$XDG_CONFIG_HOME/heroic/themes/matugen.css".into(),
                    detect_path: Some("$XDG_CONFIG_HOME/heroic".into()),
                }],
            }],
        }],
    }
}

#[test]
fn curated_and_discovered_templates_are_listed_once_in_order() {
    let (apps, probes) = build_template_catalog(&metadata(None), &templates(), &paths(), &Vec::new()).unwrap();
    assert_eq!(probes.len(), 2);
    assert_eq!(probes[0], "/home/u/.config/heroic");
    assert_eq!(probes[1], "/home/u/.config/kitty/themes/Matugen.conf");
    assert_eq!(apps.len(), 2);
    assert_eq!(apps[0].name, "Heroic Games Launcher");
    assert_eq!(apps[0].category, "Gaming");
    let target = &apps[0].variants[0].targets[0];
    assert_eq!(target.output_path, "/home/u/.config/heroic/themes/matugen.css");
    assert_eq!(target.input_path, "/t/templates/heroic.css");
    assert!(!target.detected);
    assert_eq!(apps[0].variants[0].template.target_app, "Heroic Games Launcher");
    assert_eq!(apps[1].category, "Terminals");
    let variant = &apps[1].variants[0];
    assert_eq!(variant.id, format!("{}-kitty-colors-conf", apps[1].id));
    assert_eq!(variant.targets[0].install_type, "native");
    assert_eq!(variant.source.source_path.as_deref(), Some("templates/kitty-colors.conf"));

    let existing = vec![probes[0].clone()];
    let (apps, probes_again) = build_template_catalog(&metadata(None), &templates(), &paths(), &existing).unwrap();
    assert_eq!(probes_again, probes);
    assert!(apps[0].variants[0].targets[0].detected);
    assert!(!apps[1].variants[0].targets[0].detected);
}

#[test]
fn invalid_curated_metadata_is_refused() {
    assert_eq!(
        build_template_catalog(&metadata(Some("sometimes")), &templates(), &paths(), &Vec::new()).unwrap_err(),
        "Invalid automation level for heroic"
    );
    let (apps, _) = build_template_catalog(&metadata(Some("manual")), &templates(), &paths(), &Vec::new()).unwrap();
    assert_eq!(apps[0].variants[0].template.automation_level, "manual");
}

#[test]
fn bundled_files_are_recognized_and_sorted() {
    assert!(is_matugen_template("/t/templates/a.css", Some("a { color: {{colors.primary}} }")));
    assert!(!is_matugen_template("/t/templates/a.css", Some("plain")));
    assert!(!is_matugen_template("/t/templates/README.md", Some("{{")));
    assert!(!is_matugen_template("/t/nix-hm-example/x", Some("{{")));
    assert!(!is_matugen_template("/t/templates/a.css", None));
    assert_eq!(website_relative_path(Some("youtube.css")), "websites/youtube.css");
    assert_eq!(website_relative_path(None), "websites/website.css");
    let sorted = sort_templates(templates());
    assert_eq!(sorted[0].relative_path, "heroic.css");
    assert_eq!(sorted[1].relative_path, "kitty-colors.conf");
}
