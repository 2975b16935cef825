use matugen_studio::context::{ColorEntry, ColorRole, ColorVariant, SchemeContext};
use matugen_studio::ini::{patch_ini, IniPatch};
use matugen_studio::integrations::{
    after_write, has_effect, version_from_capture, integration_failure, integration_plan, integrations_wanted, klassy_patches, klassy_version,
    outline_role, rounded_patches, Integration, IntegrationDetection, IntegrationStep, KdeIntegrationDetection,
};
use matugen_studio::settings::{KdeIntegrationSettings, OutlineSource};

fn patch(group: &str, key: &str, value: &str) -> IniPatch {
    IniPatch { group: group.to_string(), key: key.to_string(), value: value.to_string() }
}

fn role(name: &str, variant: &str, hex: &str) -> ColorRole {
    ColorRole {
        name: name.to_string(),
        variants: vec![ColorVariant {
            name: variant.to_string(),
            entry: ColorEntry { hex: Some(hex.to_string()), color: None },
        }],
    }
}

#[test]
fn version_detection_is_conservative() {
    assert_eq!(
        klassy_version("klassy-settings 6.7.3"),
        Some(("6.7.3".into(), true))
    );
    assert!(!klassy_version("klassy-settings 6.4.0").unwrap().1);
    assert!(klassy_version("").is_none());
    assert!(has_effect("(['blur', 'kwin4_effect_shapecorners'],)"));
    assert!(!has_effect("(['blur', 'kwin4_effect_shapecorners_fork'],)"));
}

#[test]
fn disabled_integrations_never_need_colors_or_modify_config() {
    let settings = KdeIntegrationSettings::default();
    let empty = SchemeContext { roles: Vec::new() };
    assert!(klassy_patches(&empty, &settings).unwrap().is_empty());
    assert!(rounded_patches(&empty, &settings).unwrap().is_empty());
}

#[test]
fn patch_is_idempotent_and_preserves_geometry() {
    let original = "# comment\n[Round-Corners]\nRadius=12\nShadowSize=6\nOutlineColor = 1,2,3\n[Other]\nA=b\n";
    let patches = vec![patch("Round-Corners", "OutlineColor", "10,20,30")];
    let result = patch_ini(original, &patches).unwrap();
    assert!(result.contains("Radius=12\nShadowSize=6"));
    assert!(result.contains("[Other]\nA=b"));
    assert_eq!(patch_ini(&result, &patches).unwrap(), result);
    assert!(patch_ini("[Round-Corners][$i]\n", &patches).is_err());
    assert_eq!(
        patch_ini("", &patches).unwrap(),
        "[Round-Corners]\nOutlineColor=10,20,30\n"
    );
}

#[test]
fn color_mapping_and_opacity_only_touch_requested_keys() {
    let context = SchemeContext {
        roles: vec![role("primary", "default", "#123456"), role("outline_variant", "default", "#abcdef")],
    };
    let mut settings = KdeIntegrationSettings::default();
    settings.klassy.enabled = true;
    settings.klassy.outline_sync = true;
    settings.klassy.titlebar_opacity = Some(80);
    let patches = klassy_patches(&context, &settings).unwrap();
    let text = patch_ini("", &patches).unwrap();
    assert!(text.contains("WindowOutlineCustomColorActive=#123456"));
    assert!(text.contains("TitleBarOpacityActive=80"));
    assert!(!text.contains("Inactive"));
    settings.rounded_corners.enabled = true;
    settings.rounded_corners.outline_sync = true;
    settings.rounded_corners.outline_source = OutlineSource::OutlineVariant;
    assert!(
        patch_ini("", &rounded_patches(&context, &settings).unwrap())
            .unwrap()
            .contains("OutlineColor=171,205,239")
    );
    assert_eq!(outline_role(OutlineSource::Automatic), "outline");
    assert_eq!(outline_role(OutlineSource::Primary), "primary");
    assert_eq!(outline_role(OutlineSource::Outline), "outline");
}

#[test]
fn patching_an_existing_key_twice_gives_the_same_text() {
    let original = "[General]\r\nName=x\n[Round-Corners]\nOutlineColor=1,2,3\nOutlineColor=4,5,6\n";
    let patches = vec![patch("Round-Corners", "OutlineColor", "7,8,9")];
    let once = patch_ini(original, &patches).unwrap();
    assert_eq!(
        once,
        "[General]\nName=x\n[Round-Corners]\nOutlineColor=7,8,9\nOutlineColor=7,8,9\n"
    );
    assert_eq!(patch_ini(&once, &patches).unwrap(), once);
}

#[test]
fn immutable_keys_and_groups_are_refused() {
    let patches = vec![patch("Round-Corners", "OutlineColor", "7,8,9")];
    assert_eq!(
        patch_ini("[Round-Corners]\nOutlineColor[$i]=1\n", &patches).unwrap_err(),
        "KDE configuration key OutlineColor is immutable"
    );
    assert_eq!(
        patch_ini("[$i]\n", &patches).unwrap_err(),
        "KDE configuration group Round-Corners is immutable"
    );
}

#[test]
fn titlebar_opacity_above_a_hundred_is_refused() {
    let mut settings = KdeIntegrationSettings::default();
    settings.klassy.titlebar_opacity = Some(101);
    assert_eq!(settings.validate().unwrap_err(), "Titlebar opacity must be between 0 and 100");
    settings.klassy.titlebar_opacity = Some(100);
    assert!(settings.validate().is_ok());
}

fn detection(supported: bool, active: bool, message: &str) -> IntegrationDetection {
    IntegrationDetection {
        detected: true,
        supported,
        version: None,
        active,
        message: message.to_string(),
    }
}

#[test]
fn disabled_integrations_are_never_patched_and_unsupported_ones_warn() {
    let mut settings = KdeIntegrationSettings::default();
    assert!(!integrations_wanted(&settings));
    let found = KdeIntegrationDetection {
        klassy: detection(true, true, "ok"),
        rounded_corners: detection(false, false, "Rounded Corners not detected"),
    };
    assert!(integration_plan(&settings, &found).is_empty());
    settings.klassy.enabled = true;
    settings.rounded_corners.enabled = true;
    assert!(integrations_wanted(&settings));
    let plan = integration_plan(&settings, &found);
    assert_eq!(plan.len(), 2);
    assert!(matches!(plan[0], IntegrationStep::Patch(Integration::Klassy)));
    assert!(matches!(&plan[1], IntegrationStep::Warn(w) if w == "Rounded Corners not detected"));
    settings.klassy.enabled = false;
    let plan = integration_plan(&settings, &found);
    assert_eq!(plan.len(), 1);
    assert!(matches!(&plan[0], IntegrationStep::Warn(_)));
}

#[test]
fn reloads_follow_only_a_write_and_only_a_loaded_effect_is_reconfigured() {
    assert!(after_write(Integration::Klassy, false, true).is_empty());
    assert_eq!(
        after_write(Integration::Klassy, true, false),
        vec![
            "gdbus emit --session --object-path /KlassyDecoration --signal org.kde.Klassy.Style.updateDecorationColorCache".to_string(),
            "gdbus emit --session --object-path /KWin --signal org.kde.KWin.reloadConfig".to_string(),
        ]
    );
    assert!(after_write(Integration::RoundedCorners, true, false).is_empty());
    assert!(after_write(Integration::RoundedCorners, false, true).is_empty());
    assert_eq!(
        after_write(Integration::RoundedCorners, true, true),
        vec!["gdbus call --session --dest org.kde.KWin --object-path /Effects --method org.kde.kwin.Effects.reconfigureEffect kwin4_effect_shapecorners".to_string()]
    );
    assert_eq!(integration_failure(Integration::RoundedCorners, "boom"), "Rounded Corners: boom");
    assert_eq!(integration_failure(Integration::Klassy, "x"), "Klassy: x");
}

#[test]
fn version_captures_decide_klassy_support() {
    assert_eq!(version_from_capture("6.5.0".to_string(), "6", "5"), Some(("6.5.0".to_string(), true)));
    assert_eq!(version_from_capture("6.4.2".to_string(), "6", "4"), Some(("6.4.2".to_string(), false)));
    assert_eq!(version_from_capture("7.0.0".to_string(), "7", "0"), Some(("7.0.0".to_string(), false)));
    assert_eq!(version_from_capture("x".to_string(), "99999999999", "1"), None);
}

#[test]
fn an_immutable_group_refuses_the_whole_list_and_patches_keep_other_lines() {
    let content = "[Round-Corners][$i]\nSize=4\n[Other]\nx=1\n";
    let patches = vec![patch("Windeco", "A", "1"), patch("Round-Corners", "Size", "8")];
    assert!(patch_ini(content, &patches).unwrap_err().contains("is immutable"));
    let plain = "# comment\n[Windeco]\nA=0\nB=2\n[Other]\nx=1\n";
    let out = patch_ini(plain, &vec![patch("Windeco", "A", "1")]).unwrap();
    assert_eq!(out, "# comment\n[Windeco]\nA=1\nB=2\n[Other]\nx=1\n");
}

#[test]
fn patching_with_several_patches_twice_gives_the_same_text() {
    let original = "[Windeco]\nA=0\n\n[Round-Corners]\r\nSize=4\n[Other]\nx=1\n";
    let patches = vec![
        patch("Windeco", "A", "1"),
        patch("Round-Corners", "Size", "8"),
        patch("Round-Corners", "OutlineColor", "1,2,3"),
        patch("NewGroup", "B", "2"),
    ];
    let once = patch_ini(original, &patches).unwrap();
    assert_eq!(patch_ini(&once, &patches).unwrap(), once);
    assert!(once.contains("[NewGroup]\nB=2\n"));
    assert!(once.contains("Size=8\n"));
}

#[test]
fn an_immutable_key_refuses_the_whole_list() {
    let content = "[Windeco]\nA=0\n[Round-Corners]\nSize[$i]=4\n";
    let patches = vec![patch("Windeco", "A", "1"), patch("Round-Corners", "Size", "8")];
    assert_eq!(
        patch_ini(content, &patches).unwrap_err(),
        "KDE configuration key Size is immutable"
    );
}
