use matugen_studio::color::{
    color_object_fields, effective_scheme_type, initial_indices, parse_hex_rgb, parse_scheme_request,
    read_hex_from_entry, WalBackend,
};
use matugen_studio::context::{resolve_mode, ColorEntry, ColorRole, ColorVariant, SchemeContext};
use matugen_studio::desktop::{
    file_uri, global_wallpaper_command, new_thumbnail_path, screen_wallpaper_script, thumbnail_candidates,
    thumbnail_bytes_current, thumbnail_chunks, thumbnail_hash, thumbnail_is_current, thumbnail_png, wallpaper_listing,
    ThumbnailResult,
};
use matugen_studio::filters::{camel_case, kebab_case, lower_case, replace, FilterError, FilterInput};
use matugen_studio::overrides::{
    path_from_capture, remove_override, sort_color_groups, TemplateColorGroup, restore_values, set_override, source_path_from_value, TemplateColorOverride,
};
use matugen_studio::settings::ColorMode;
use matugen_studio::wallhaven::{
    acquire_step, check_download_size, search_query, validated_api_key, wallpaper_identity, wallpaper_query,
    wallpaper_url, WallhavenSearchParams,
};
use matugen_studio::wallpaper::{download_root_for, provider_dir, ProviderPaths};

fn variant(name: &str, hex: &str) -> ColorVariant {
    ColorVariant { name: name.to_string(), entry: ColorEntry { hex: Some(hex.to_string()), color: None } }
}

#[test]
fn download_root_uses_supplied_pictures_path() {
    assert_eq!(download_root_for("/xdg/Pictures"), "/xdg/Pictures/Wallpapers/Matugen Studio");
    assert_eq!(provider_dir("/library", "wallhaven").unwrap(), "/library/Wallhaven");
    assert!(provider_dir("/library", "../../bad").is_err());
}

#[test]
fn load_colors_uses_cache_without_creating_managed_active() {
    let cached = "/tmp/cache/matugen-studio/wallhaven/colors.png".to_string();
    let paths = ProviderPaths { cache: Some(cached.clone()), ..Default::default() };
    assert_eq!(paths.for_colors(), Some(cached.as_str()));
    assert!(paths.for_apply().is_none());
    let saved = "/tmp/saved.png".to_string();
    let with_saved = ProviderPaths { saved: Some(saved.clone()), ..paths };
    assert_eq!(with_saved.for_colors(), Some(saved.as_str()));
    assert_eq!(with_saved.for_apply(), Some(saved.as_str()));
}

#[test]
fn mode_updates_default_and_gtk_together() {
    let mut ctx = SchemeContext {
        roles: vec![ColorRole {
            name: "primary".to_string(),
            variants: vec![variant("dark", "#000000"), variant("light", "#ffffff")],
        }],
    };
    let wallpaper_luminance = 0.8;
    assert!(!resolve_mode(&mut ctx, ColorMode::Auto, wallpaper_luminance <= 0.5));
    let default = ctx.roles[0].variants.iter().find(|v| v.name == "default").unwrap();
    assert_eq!(default.entry.hex.as_deref(), Some("#ffffff"));
    assert!(resolve_mode(&mut ctx, ColorMode::Dark, false));
    let default = ctx.roles[0].variants.iter().find(|v| v.name == "default").unwrap();
    assert_eq!(default.entry.hex.as_deref(), Some("#000000"));
    assert_eq!(ctx.roles[0].variants.iter().filter(|v| v.name == "default").count(), 1);
}

#[test]
fn scheme_requests_name_their_base_scheme() {
    let r = parse_scheme_request("Tinted Smart");
    assert_eq!((r.requested.as_str(), r.base.as_str(), r.tinted), ("Tinted Smart", "Smart", true));
    let r = parse_scheme_request("Classic Vibrant");
    assert_eq!((r.base.as_str(), r.tinted), ("Vibrant", false));
    let r = parse_scheme_request("Content");
    assert_eq!((r.base.as_str(), r.tinted), ("Content", false));
    assert_eq!(effective_scheme_type("Smart", true), "Monochrome");
    assert_eq!(effective_scheme_type("Smart", false), "Content");
    assert_eq!(effective_scheme_type("Rainbow", true), "Rainbow");
}

#[test]
fn color_objects_are_read_and_written() {
    assert_eq!(parse_hex_rgb(" #1a2B3c "), Some((26, 43, 60)));
    assert_eq!(parse_hex_rgb("##+f0a0b"), Some((15, 10, 11)));
    assert_eq!(parse_hex_rgb("#12345"), None);
    assert_eq!(parse_hex_rgb("#zz0000"), None);
    let entry = ColorEntry { hex: Some(" #11223344 ".to_string()), color: Some("#555555".to_string()) };
    assert_eq!(read_hex_from_entry(&entry).as_deref(), Some("#112233"));
    let entry = ColorEntry { hex: Some("bad".to_string()), color: Some("#555555".to_string()) };
    assert_eq!(read_hex_from_entry(&entry).as_deref(), Some("#555555"));
    let fields = color_object_fields("#0A141E").unwrap();
    let get = |k: &str| fields.iter().find(|(key, _)| key == k).map(|(_, v)| v.clone()).unwrap();
    assert_eq!(get("hex_stripped"), "0A141E");
    assert_eq!(get("hex_alpha"), "#0A141Eff");
    assert_eq!(get("rgb"), "rgb(10, 20, 30)");
    assert_eq!(get("rgba"), "rgba(10, 20, 30, 255)");
    assert_eq!(get("blue"), "30");
    assert!(color_object_fields("nope").is_none());
}

#[test]
fn wal_backend_defaults_and_initial_clusters() {
    let wal = WalBackend::default();
    assert_eq!((wal.clusters, wal.resize_width, wal.sample_step, wal.iterations), (16, 300, 2, 8));
    assert_eq!(initial_indices(10, 4), vec![0, 3, 6, 9]);
    assert_eq!(initial_indices(5, 1), vec![0]);
}

#[test]
fn thumbnails_follow_the_freedesktop_cache() {
    assert_eq!(file_uri("/tmp/a b#1.png", "/cwd"), "file:///tmp/a%20b%231.png");
    assert_eq!(file_uri("x/é.png", "/cwd"), "file:///cwd/x/%C3%A9.png");
    assert_eq!(thumbnail_hash(""), "d41d8cd98f00b204e9800998ecf8427e");
    let candidates = thumbnail_candidates("/c/thumbnails", "abc");
    assert_eq!(
        candidates,
        vec![
            "/c/thumbnails/large/abc.png",
            "/c/thumbnails/x-large/abc.png",
            "/c/thumbnails/xx-large/abc.png",
            "/c/thumbnails/normal/abc.png"
        ]
    );
    assert_eq!(new_thumbnail_path("/c/thumbnails", "abc"), "/c/thumbnails/large/abc.png");
    let chunks = vec![
        ("Thumb::URI".to_string(), "file:///old".to_string()),
        ("Thumb::MTime".to_string(), "+42".to_string()),
        ("Thumb::URI".to_string(), "file:///a.png".to_string()),
    ];
    assert!(thumbnail_is_current(&chunks, "file:///a.png", 42));
    assert!(!thumbnail_is_current(&chunks, "file:///old", 42));
    assert!(!thumbnail_is_current(&chunks, "file:///a.png", 41));
    let ok = ThumbnailResult::from_outcome("a".into(), Ok("t".into()));
    assert_eq!((ok.thumbnail_path.as_deref(), ok.error.as_deref()), (Some("t"), None));
    let err = ThumbnailResult::from_outcome("a".into(), Err("e".into()));
    assert_eq!((err.thumbnail_path.as_deref(), err.error.as_deref()), (None, Some("e")));
}

#[test]
fn wallpaper_folders_list_images_in_order() {
    let files = vec![
        "/w/b.PNG".to_string(),
        "/w/a.jpg".to_string(),
        "/w/notes.txt".to_string(),
        "/w/c.webp".to_string(),
        "/w/.jpeg".to_string(),
    ];
    assert_eq!(wallpaper_listing(files), vec!["/w/a.jpg", "/w/b.PNG", "/w/c.webp"]);
    assert_eq!(global_wallpaper_command("/w/a.jpg"), "plasma-apply-wallpaperimage \"/w/a.jpg\"");
    assert_eq!(
        screen_wallpaper_script("/w/it's.png", 1),
        "var allDesktops = desktops(); var target = allDesktops[1]; if (target) { target.wallpaperPlugin = 'org.kde.image'; target.currentConfigGroup = ['Wallpaper', 'org.kde.image', 'General']; target.writeConfig('Image', 'file:///w/it\\'s.png'); }"
    );
}

#[test]
fn wallhaven_requests_and_identities() {
    let params = WallhavenSearchParams {
        q: Some("  ".into()),
        categories: None,
        purity: Some("110".into()),
        sorting: None,
        order: None,
        top_range: Some("1M".into()),
        colors: None,
        ratios: None,
        atleast: None,
        page: None,
        seed: None,
        api_key: Some("key".into()),
    };
    let query: Vec<(String, String)> =
        search_query(&params).into_iter().map(|(k, v)| (k.to_string(), v)).collect();
    let expected: Vec<(String, String)> = [
        ("categories", "111"),
        ("purity", "110"),
        ("sorting", "date_added"),
        ("order", "desc"),
        ("topRange", "1M"),
        ("page", "1"),
        ("apikey", "key"),
    ]
    .iter()
    .map(|(k, v)| (k.to_string(), v.to_string()))
    .collect();
    assert_eq!(query, expected);
    assert!(wallpaper_query(&Some(" ".into())).is_empty());
    assert_eq!(wallpaper_url("abc123"), "https://wallhaven.cc/api/v1/w/abc123");
    assert_eq!(wallpaper_identity("abc123", "https", Some("w.wallhaven.cc"), "/full/ab/x.PNG").unwrap(), "png");
    assert_eq!(wallpaper_identity("a!", "https", Some("w.wallhaven.cc"), "/x.png").unwrap_err(), "Invalid Wallhaven ID");
    assert_eq!(
        wallpaper_identity("abc", "http", Some("w.wallhaven.cc"), "/x.png").unwrap_err(),
        "Wallpaper URL must use the Wallhaven image host"
    );
    assert_eq!(wallpaper_identity("abc", "https", Some("w.wallhaven.cc"), "/x").unwrap_err(), "Missing image extension");
    assert_eq!(
        wallpaper_identity("abc", "https", Some("w.wallhaven.cc"), "/x.exe").unwrap_err(),
        "Unsupported image extension"
    );
    assert!(check_download_size(50 * 1024 * 1024).is_ok());
    assert_eq!(check_download_size(50 * 1024 * 1024 + 1).unwrap_err(), "Wallpaper exceeds 50 MB");
    assert_eq!(validated_api_key("  k ").unwrap(), "k");
    assert_eq!(validated_api_key("   ").unwrap_err(), "Informe uma chave de API");
}

#[test]
fn the_request_window_holds_at_most_forty_five_requests() {
    let mut stamps: Vec<u64> = Vec::new();
    for i in 0..45u64 {
        assert_eq!(acquire_step(&mut stamps, 1000 + i, 60_000), None);
    }
    assert_eq!(acquire_step(&mut stamps, 2000, 60_000), Some(59_000));
    assert_eq!(stamps.len(), 45);
    assert_eq!(acquire_step(&mut stamps, 61_001, 60_000), None);
    assert_eq!(stamps.len(), 45);
    assert_eq!(stamps[0], 1001);
    assert_eq!(*stamps.last().unwrap(), 61_001);
}

#[test]
fn filters_work_on_text_booleans_and_colors() {
    let keywords = vec!["hex".to_string()];
    assert_eq!(replace(&FilterInput::Text("a-b-c".into()), &keywords, "-", "_").unwrap(), "a_b_c");
    assert_eq!(replace(&FilterInput::Bool(true), &keywords, "t", "T").unwrap(), "True");
    assert_eq!(
        replace(&FilterInput::Color(Some("#aabbcc".into())), &keywords, "#", "").unwrap(),
        "aabbcc"
    );
    assert_eq!(
        replace(&FilterInput::Color(Some("#aabbcc".into())), &Vec::new(), "#", ""),
        Err(FilterError::MissingColorFormat)
    );
    assert_eq!(
        lower_case(&FilterInput::Color(None), &keywords),
        Err(FilterError::InvalidColorFormat { format: "hex".into() })
    );
    assert_eq!(lower_case(&FilterInput::Text("Hello World".into()), &keywords).unwrap(), "hello world");
    assert_eq!(camel_case(&FilterInput::Text("hello world".into()), &keywords).unwrap(), "helloWorld");
    assert_eq!(kebab_case(&FilterInput::Bool(false), &keywords).unwrap(), "false");
}

#[test]
fn overrides_are_set_removed_and_restored() {
    let mut values: Vec<(String, TemplateColorOverride)> = vec![(
        "accent".to_string(),
        TemplateColorOverride::Legacy("#111111".to_string()),
    )];
    set_override(&mut values, "accent".into(), "#222222".into(), Some("#000000".into()));
    set_override(&mut values, "bg".into(), "#333333".into(), None);
    assert_eq!(values.len(), 2);
    assert_eq!(values.iter().filter(|(k, _)| k == "accent").count(), 1);
    let restore = restore_values(&values);
    assert_eq!(restore, vec![("accent".to_string(), "#000000".to_string())]);
    let removed = remove_override(&mut values, "accent").unwrap();
    assert_eq!(removed.hex(), "#222222");
    assert_eq!(removed.original_hex(), Some("#000000"));
    assert!(remove_override(&mut values, "accent").is_none());
    assert_eq!(values.len(), 1);
}

#[test]
fn generated_thumbnails_carry_the_freedesktop_chunks_and_read_back_current() {
    let chunks = thumbnail_chunks("file:///a.png", 42, 1234);
    assert_eq!(
        chunks,
        vec![
            ("Thumb::URI".to_string(), "file:///a.png".to_string()),
            ("Thumb::MTime".to_string(), "42".to_string()),
            ("Thumb::Size".to_string(), "1234".to_string()),
            ("Software".to_string(), "Matugen Studio".to_string()),
        ]
    );
    let img = image::RgbImage::from_pixel(600, 300, image::Rgb([10, 20, 30]));
    let mut out = std::io::Cursor::new(Vec::new());
    image::DynamicImage::ImageRgb8(img).write_to(&mut out, image::ImageFormat::Png).unwrap();
    let source = out.into_inner();
    let thumb = thumbnail_png(&source, "/pics/a.png", "file:///a.png", 42, 1234).unwrap();
    let decoded = image::load_from_memory(&thumb).unwrap();
    assert_eq!((decoded.width(), decoded.height()), (256, 128));
    assert!(thumbnail_bytes_current(&thumb, "file:///a.png", 42));
    assert!(!thumbnail_bytes_current(&thumb, "file:///a.png", 41));
    assert!(!thumbnail_bytes_current(&thumb, "file:///b.png", 42));
    assert!(!thumbnail_bytes_current(&source, "file:///a.png", 42));
    assert!(!thumbnail_bytes_current(b"not a png", "file:///a.png", 42));
    assert!(thumbnail_png(b"not an image", "/pics/a.png", "file:///a.png", 42, 1234).is_err());
}

#[test]
fn color_references_become_dotted_source_paths() {
    assert_eq!(path_from_capture("primary", "dark", "hex"), "primary.dark.hex");
    assert_eq!(
        source_path_from_value("{{ colors.on_surface.default.hex }}").as_deref(),
        Some("on_surface.default.hex")
    );
    assert_eq!(source_path_from_value("#abcdef"), None);
}

fn group(name: &str, app: &str, display: &str) -> TemplateColorGroup {
    TemplateColorGroup {
        template_name: name.to_string(),
        display_name: display.to_string(),
        target_app: app.to_string(),
        output_path: None,
        controls: Vec::new(),
    }
}

#[test]
fn color_groups_sort_by_app_then_name_and_keep_ties_in_order() {
    let sorted = sort_color_groups(vec![
        group("z1", "Kitty", "Colors"),
        group("a", "Alacritty", "Theme"),
        group("z2", "Kitty", "Colors"),
        group("b", "Alacritty", "Base"),
    ]);
    let names: Vec<&str> = sorted.iter().map(|g| g.template_name.as_str()).collect();
    assert_eq!(names, vec!["b", "a", "z1", "z2"]);
}
