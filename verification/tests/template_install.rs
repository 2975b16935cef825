use matugen_studio::catalog::{escape_toml_string, CatalogPaths};
use matugen_studio::install::{
    checked_output_path, install_target, installed_config, installed_entries, installed_templates,
    plan_uninstall, snapshot_entries, template_table, without_section, TomlOutput,
};

fn paths() -> CatalogPaths {
    CatalogPaths {
        home: "/home/u".to_string(),
        config: "/home/u/.config".to_string(),
        data: "/home/u/.local/share".to_string(),
        cache: "/home/u/.cache".to_string(),
        state: "/home/u/.local/state".to_string(),
    }
}

const CONFIG_DIR: &str = "/home/u/.config/matugen";

#[test]
fn install_template_rejects_empty_output_path() {
    let err_empty = checked_output_path("").unwrap_err();
    assert!(err_empty.contains("Output path cannot be empty"));
    let err_spaces = checked_output_path("    ").unwrap_err();
    assert!(err_spaces.contains("Output path cannot be empty"));
    assert_eq!(checked_output_path("  ~/x.css ").unwrap(), "~/x.css");
}

#[test]
fn windows_paths_are_valid_inside_toml_strings() {
    let path = r#"C:\Windows\Temp\matugen_windows_term.json"#;
    let document = format!("output_path = \"{}\"", escape_toml_string(path));
    let parsed: toml::Value = toml::from_str(&document).unwrap();
    assert_eq!(parsed["output_path"].as_str(), Some(path));
}

#[test]
fn the_templates_table_is_read_with_its_paths() {
    let content = "[templates.a]\ninput_path = \"/in/a\"\noutput_path = \"/out/a\"\n\n[templates.b]\ninput_path = 3\noutput_path = [\"/out/b\", 4]\n";
    let table = template_table(content).unwrap().unwrap();
    assert_eq!(table.len(), 2);
    assert_eq!(table[0].key, "a");
    assert_eq!(table[0].input_path.as_deref(), Some("/in/a"));
    assert!(matches!(&table[0].output_path, TomlOutput::Text(p) if p == "/out/a"));
    assert_eq!(table[1].key, "b");
    assert!(table[1].input_path.is_none());
    match &table[1].output_path {
        TomlOutput::List(values) => {
            assert_eq!(values.len(), 2);
            assert_eq!(values[0].as_deref(), Some("/out/b"));
            assert!(values[1].is_none());
        }
        other => panic!("unexpected output {:?}", other),
    }
    assert!(template_table("").unwrap().is_none());
    assert!(template_table("[templates\n").unwrap_err().starts_with("Invalid config.toml: "));
}

#[test]
fn installed_keys_and_entries_are_listed() {
    let content = "[templates.heroic_css]\ninput_path = \"templates/heroic.css\"\noutput_path = \"~/.config/heroic/themes/matugen.css\"\n\n[templates.broken]\ninput_path = \"x\"\noutput_path = [\"y\"]\n";
    assert_eq!(installed_templates(None).unwrap(), Vec::<String>::new());
    assert_eq!(
        installed_templates(Some(content)).unwrap(),
        vec!["broken".to_string(), "heroic_css".to_string()]
    );
    let entries = installed_entries(Some(content), &paths(), CONFIG_DIR, Some("/home/u")).unwrap();
    assert_eq!(entries.len(), 1);
    assert_eq!(entries[0].key, "heroic_css");
    assert_eq!(entries[0].input_path, "/home/u/.config/matugen/templates/heroic.css");
    assert_eq!(entries[0].output_path, "/home/u/.config/heroic/themes/matugen.css");
}

#[test]
fn install_refuses_installed_keys_and_claimed_outputs() {
    let content = "[config]\n\n[templates.\"discord.material__vesktop-native\"]\ninput_path = \"/x\"\noutput_path = \"$XDG_CONFIG_HOME/vesktop/themes/matugen-material.css\"\n";
    let err = install_target(
        CONFIG_DIR,
        content,
        "discord.material__vesktop-native",
        "$XDG_CONFIG_HOME/vesktop/themes/other.css",
        &paths(),
        Some("/home/u"),
    )
    .unwrap_err();
    assert!(err.contains("already installed"));
    let err = install_target(
        CONFIG_DIR,
        content,
        "discord-system24__vesktop-native",
        "$XDG_CONFIG_HOME/vesktop/themes/matugen-material.css",
        &paths(),
        Some("/home/u"),
    )
    .unwrap_err();
    assert_eq!(
        err,
        "Output path is already used by installed template 'discord.material__vesktop-native'"
    );
    assert_eq!(
        install_target(CONFIG_DIR, content, "../x", "/out", &paths(), None).unwrap_err(),
        "Invalid template name"
    );
    assert_eq!(
        install_target(CONFIG_DIR, content, "x.css", "$XDG_CONFIG_HOME/../escape", &paths(), None).unwrap_err(),
        "Invalid catalog path: $XDG_CONFIG_HOME/../escape"
    );
}

#[test]
fn installing_appends_an_entry_that_parses() {
    let target = install_target(
        CONFIG_DIR,
        "# user settings\n",
        "system24.css",
        "$XDG_CONFIG_HOME/vesktop/themes/system24.css",
        &paths(),
        Some("/home/u"),
    )
    .unwrap();
    assert_eq!(target.name_key, "system24_css");
    assert_eq!(target.dest_path, "/home/u/.config/matugen/templates/system24.css");
    assert_eq!(target.requested_output, "/home/u/.config/vesktop/themes/system24.css");
    let text = installed_config("# user settings\n", &target, Some("  pkill -USR1 x  ")).unwrap();
    assert_eq!(
        text,
        "[config]\n# user settings\n\n[templates.\"system24_css\"]\ninput_path = \"/home/u/.config/matugen/templates/system24.css\"\noutput_path = \"/home/u/.config/vesktop/themes/system24.css\"\npost_hook = \"pkill -USR1 x\"\n"
    );
    assert_eq!(installed_templates(Some(&text)).unwrap(), vec!["system24_css".to_string()]);
    let again = install_target(
        CONFIG_DIR,
        &text,
        "system24.css",
        "$XDG_CONFIG_HOME/vesktop/themes/elsewhere.css",
        &paths(),
        Some("/home/u"),
    );
    assert!(again.unwrap_err().contains("already installed"));
}

#[test]
fn removing_a_section_keeps_the_rest() {
    let content = "[config]\n[templates.\"a_css\"]\ninput_path = \"x\"\n[templates.b]\ninput_path = \"y\"\n";
    assert_eq!(
        without_section(content, "a_css").unwrap(),
        "[config]\n[templates.b]\ninput_path = \"y\"\n"
    );
    assert_eq!(
        without_section(content, "b").unwrap(),
        "[config]\n[templates.\"a_css\"]\ninput_path = \"x\"\n"
    );
    assert_eq!(
        without_section(content, "c").unwrap_err(),
        "Installed template has no removable config section"
    );
}

#[test]
fn legacy_uninstall_preserves_shared_or_external_inputs() {
    let shared = "[templates.heroic_css]\ninput_path = \"templates/heroic.css\"\noutput_path = \"o1\"\n[templates.other]\ninput_path = \"templates/heroic.css\"\noutput_path = \"o2\"\n";
    let plan = plan_uninstall(CONFIG_DIR, Some(shared), "heroic.css", Some("/home/u")).unwrap().unwrap();
    assert!(plan.owned_input.is_none(), "other entry owns this input too");
    assert!(!plan.config_content.contains("heroic_css"));
    let alone = "[templates.heroic_css]\ninput_path = \"templates/heroic.css\"\noutput_path = \"o1\"\n";
    let plan = plan_uninstall(CONFIG_DIR, Some(alone), "heroic.css", Some("/home/u")).unwrap().unwrap();
    assert_eq!(plan.owned_input.as_deref(), Some("/home/u/.config/matugen/templates/heroic.css"));
    assert_eq!(plan.config_content, "");
    let external = "[templates.external__manual]\ninput_path = \"~/heroic.css\"\noutput_path = \"o1\"\n";
    let plan = plan_uninstall(CONFIG_DIR, Some(external), "external__manual", Some("/home/u")).unwrap().unwrap();
    assert!(plan.owned_input.is_none(), "external source is not managed input");
    assert!(plan_uninstall(CONFIG_DIR, None, "heroic.css", None).unwrap().is_none());
    assert!(plan_uninstall(CONFIG_DIR, Some(alone), "missing.css", None).unwrap().is_none());
}

#[test]
fn equibop_material_install_and_removal_leave_other_variants_intact() {
    let installs = [
        ("discord.material__equibop-native", "$XDG_CONFIG_HOME/Equibop/themes/matugen-material.css"),
        ("discord-midnight__equibop-native", "$XDG_CONFIG_HOME/Equibop/themes/matugen-midnight.css"),
        ("discord-system24__equibop-native", "$XDG_CONFIG_HOME/Equibop/themes/matugen-system24.css"),
        (
            "discord.material__equibop-flatpak",
            "$HOME/.var/app/io.github.equibop.Equibop/config/Equibop/themes/matugen-material.css",
        ),
    ];
    let mut config = String::new();
    for (key, output) in installs {
        let target = install_target(CONFIG_DIR, &config, key, output, &paths(), Some("/home/u")).unwrap();
        assert_eq!(target.name_key, key);
        config = installed_config(&config, &target, None).unwrap();
    }
    let material_key = "discord.material__equibop-native";
    let flatpak_key = "discord.material__equibop-flatpak";
    assert_eq!(installed_templates(Some(&config)).unwrap().len(), 4);
    assert_eq!(installed_entries(Some(&config), &paths(), CONFIG_DIR, Some("/home/u")).unwrap().len(), 4);

    let plan = plan_uninstall(CONFIG_DIR, Some(&config), material_key, Some("/home/u")).unwrap().unwrap();
    assert_eq!(
        plan.owned_input.as_deref(),
        Some("/home/u/.config/matugen/templates/discord.material__equibop-native")
    );
    let remaining = installed_templates(Some(&plan.config_content)).unwrap();
    assert_eq!(remaining.len(), 3);
    assert!(!remaining.contains(&material_key.to_string()));
    assert!(remaining.contains(&flatpak_key.to_string()));
    assert!(remaining.contains(&"discord-midnight__equibop-native".to_string()));
    assert!(remaining.contains(&"discord-system24__equibop-native".to_string()));
    let flatpak = plan_uninstall(CONFIG_DIR, Some(&plan.config_content), flatpak_key, Some("/home/u"))
        .unwrap()
        .unwrap();
    assert_eq!(
        flatpak.owned_input.as_deref(),
        Some("/home/u/.config/matugen/templates/discord.material__equibop-flatpak")
    );
}

#[test]
fn snapshot_entries_read_the_file_as_it_stands() {
    let content = "[templates.a]\ninput_path = \"x\"\noutput_path = \"y\"\npost_hook = \"z\"\n[templates.b]\noutput_path = [\"p\"]\n";
    let entries = snapshot_entries(content);
    assert_eq!(entries.len(), 2);
    assert_eq!(entries[0].key, "a");
    assert_eq!(entries[0].input_path.as_deref(), Some("x"));
    assert_eq!(entries[0].post_hook.as_deref(), Some("z"));
    assert!(matches!(&entries[0].output_path, TomlOutput::Text(p) if p == "y"));
    assert!(entries[1].post_hook.is_none());
    assert!(matches!(&entries[1].output_path, TomlOutput::List(_)));
    assert!(snapshot_entries("not toml [").is_empty());
    assert!(snapshot_entries("[config]\n").is_empty());
}
