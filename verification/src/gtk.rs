//! GTK themes recolored with a scheme: the palette picked from the scheme,
//! the CSS rewrite of the bundled adw-gtk3 theme, and the GTK settings file.
use vstd::prelude::*;
use crate::context::{ColorEntry, ColorRole, SchemeContext, find_role, find_variant, opt_view};
use crate::kde::{
    group_header, has_group, kv_line, lemma_header_untouched, lemma_kv_facts, lemma_read_after_upsert, plain_entry, read_ini_value_of,
    is_group_line, read_lines, upsert_ini_value, upsert_ini_value_of,
};
use crate::matching::{hex_color_form, regex_escape, regex_escaped, regex_is_match, regex_replace_all, regex_replaced_all};
use crate::text;
use crate::text::trim;

verus! {

/// What applying a GTK theme reports.
#[derive(Debug)]
pub struct GtkThemeResult {
    pub theme_name: String,
    pub theme_path: String,
    pub warnings: Vec<String>,
}

/// The scheme colors that the GTK theme takes, as `#RRGGBB`.
#[derive(Debug)]
pub struct GtkPalette {
    pub primary: String,
    pub on_primary: String,
    pub secondary: String,
    pub on_secondary: String,
    pub tertiary: String,
    pub on_tertiary: String,
    pub error: String,
    pub on_error: String,
    pub surface: String,
    pub on_surface: String,
    pub surface_container: String,
    pub surface_container_high: String,
    pub surface_container_low: String,
}

// ── Picking colors ───────────────────────────────────────────────────────────

/// `normalize_hex`: a trimmed `#RRGGBB` or `#RRGGBBAA` as upper-case `#RRGGBB`.
pub open spec fn normalized_hex(value: Seq<char>) -> Option<Seq<char>> {
    let v = trim(value);
    if hex_color_form(v) {
        Some(text::upper(v.take(7)))
    } else {
        None
    }
}

pub fn normalize_hex(value: &str) -> (r: Option<String>)
    ensures
        r matches Some(h) ==> normalized_hex(value@) == Some(h@),
        r is None ==> normalized_hex(value@) is None,
{
    let t = text::trim_exec(&text::chars_of(value));
    let ts = text::string_of(&t);
    if !regex_is_match("(?i)^#[0-9a-f]{6}([0-9a-f]{2})?$", ts.as_str()) {
        return None;
    }
    let head = text::slice_of(&t, 0, 7);
    assert(head@ =~= t@.take(7));
    Some(text::string_of(&text::upper_exec(&head)))
}

/// The first usable color among a variant's `hex` and `color` keys.
pub open spec fn entry_color(e: ColorEntry) -> Option<Seq<char>> {
    if e.hex is Some && normalized_hex(e.hex->0@) is Some {
        normalized_hex(e.hex->0@)
    } else if e.color is Some && normalized_hex(e.color->0@) is Some {
        normalized_hex(e.color->0@)
    } else {
        None
    }
}

pub open spec fn variant_color(role: ColorRole, v: Seq<char>) -> Option<Seq<char>> {
    match find_variant(role.variants@, v) {
        Some(e) => entry_color(e),
        None => None,
    }
}

/// `get_color` of the GTK writer: the first usable color in the requested
/// variant, `default`, `dark`, `light`.
pub open spec fn gtk_color(ctx: SchemeContext, name: Seq<char>, variant: Seq<char>) -> Option<Seq<char>> {
    match find_role(ctx.roles@, name) {
        Some(role) => if variant_color(role, variant) is Some {
            variant_color(role, variant)
        } else if variant_color(role, "default"@) is Some {
            variant_color(role, "default"@)
        } else if variant_color(role, "dark"@) is Some {
            variant_color(role, "dark"@)
        } else {
            variant_color(role, "light"@)
        },
        None => None,
    }
}

fn entry_color_exec(e: &ColorEntry) -> (r: Option<String>)
    ensures
        r matches Some(h) ==> entry_color(*e) == Some(h@),
        r is None ==> entry_color(*e) is None,
{
    if let Some(h) = &e.hex {
        if let Some(n) = normalize_hex(h.as_str()) {
            return Some(n);
        }
    }
    if let Some(c) = &e.color {
        if let Some(n) = normalize_hex(c.as_str()) {
            return Some(n);
        }
    }
    None
}

fn variant_color_exec(role: &ColorRole, v: &str) -> (r: Option<String>)
    ensures
        r matches Some(h) ==> variant_color(*role, v@) == Some(h@),
        r is None ==> variant_color(*role, v@) is None,
{
    match crate::context::find_variant_exec(&role.variants, v) {
        Some(e) => entry_color_exec(e),
        None => None,
    }
}

pub fn get_color(ctx: &SchemeContext, name: &str, variant: &str) -> (r: Option<String>)
    ensures
        r matches Some(h) ==> gtk_color(*ctx, name@, variant@) == Some(h@),
        r is None ==> gtk_color(*ctx, name@, variant@) is None,
{
    let role = crate::context::find_role_exec(&ctx.roles, name)?;
    if let Some(c) = variant_color_exec(role, variant) {
        return Some(c);
    }
    if let Some(c) = variant_color_exec(role, "default") {
        return Some(c);
    }
    if let Some(c) = variant_color_exec(role, "dark") {
        return Some(c);
    }
    variant_color_exec(role, "light")
}

pub fn required_color(ctx: &SchemeContext, name: &str, variant: &str) -> (r: Result<String, String>)
    ensures
        r matches Ok(h) ==> gtk_color(*ctx, name@, variant@) == Some(h@),
        r matches Err(e) ==> gtk_color(*ctx, name@, variant@) is None && e@
            == "Required GTK color '"@ + name@ + "' is missing"@,
{
    match get_color(ctx, name, variant) {
        Some(c) => Ok(c),
        None => {
            let mut m = text::chars_of("Required GTK color '");
            text::push_str(&mut m, name);
            text::push_str(&mut m, "' is missing");
            Err(text::string_of(&m))
        },
    }
}

pub open spec fn gtk_color_or(ctx: SchemeContext, name: Seq<char>, fallback: Seq<char>, variant: Seq<char>) -> Option<Seq<char>> {
    if gtk_color(ctx, name, variant) is Some {
        gtk_color(ctx, name, variant)
    } else {
        gtk_color(ctx, fallback, variant)
    }
}

pub fn required_color_or(ctx: &SchemeContext, name: &str, fallback: &str, variant: &str) -> (r: Result<String, String>)
    ensures
        r matches Ok(h) ==> gtk_color_or(*ctx, name@, fallback@, variant@) == Some(h@),
        r matches Err(e) ==> gtk_color_or(*ctx, name@, fallback@, variant@) is None && e@
            == "Required GTK colors '"@ + name@ + "' and '"@ + fallback@ + "' are missing"@,
{
    if let Some(c) = get_color(ctx, name, variant) {
        return Ok(c);
    }
    match get_color(ctx, fallback, variant) {
        Some(c) => Ok(c),
        None => {
            let mut m = text::chars_of("Required GTK colors '");
            text::push_str(&mut m, name);
            text::push_str(&mut m, "' and '");
            text::push_str(&mut m, fallback);
            text::push_str(&mut m, "' are missing");
            Err(text::string_of(&m))
        },
    }
}

/// The palette as values.
pub struct PaletteView {
    pub primary: Seq<char>,
    pub on_primary: Seq<char>,
    pub secondary: Seq<char>,
    pub on_secondary: Seq<char>,
    pub tertiary: Seq<char>,
    pub on_tertiary: Seq<char>,
    pub error: Seq<char>,
    pub on_error: Seq<char>,
    pub surface: Seq<char>,
    pub on_surface: Seq<char>,
    pub surface_container: Seq<char>,
    pub surface_container_high: Seq<char>,
    pub surface_container_low: Seq<char>,
}

impl View for GtkPalette {
    type V = PaletteView;

    open spec fn view(&self) -> PaletteView {
        PaletteView {
            primary: self.primary@,
            on_primary: self.on_primary@,
            secondary: self.secondary@,
            on_secondary: self.on_secondary@,
            tertiary: self.tertiary@,
            on_tertiary: self.on_tertiary@,
            error: self.error@,
            on_error: self.on_error@,
            surface: self.surface@,
            on_surface: self.on_surface@,
            surface_container: self.surface_container@,
            surface_container_high: self.surface_container_high@,
            surface_container_low: self.surface_container_low@,
        }
    }
}

/// Every color the palette needs can be picked.
pub open spec fn palette_complete(ctx: SchemeContext) -> bool {
    &&& gtk_color(ctx, "primary"@, "default"@) is Some
    &&& gtk_color(ctx, "on_primary"@, "default"@) is Some
    &&& gtk_color(ctx, "secondary"@, "default"@) is Some
    &&& gtk_color(ctx, "on_secondary"@, "default"@) is Some
    &&& gtk_color(ctx, "tertiary"@, "default"@) is Some
    &&& gtk_color(ctx, "on_tertiary"@, "default"@) is Some
    &&& gtk_color(ctx, "error"@, "default"@) is Some
    &&& gtk_color(ctx, "on_error"@, "default"@) is Some
    &&& gtk_color(ctx, "surface"@, "default"@) is Some
    &&& gtk_color(ctx, "on_surface"@, "default"@) is Some
    &&& gtk_color_or(ctx, "surface_container"@, "surface"@, "default"@) is Some
    &&& gtk_color_or(ctx, "surface_container_high"@, "surface_variant"@, "default"@) is Some
    &&& gtk_color_or(ctx, "surface_container_low"@, "surface"@, "default"@) is Some
}

pub open spec fn palette_of(ctx: SchemeContext) -> PaletteView {
    PaletteView {
        primary: gtk_color(ctx, "primary"@, "default"@)->0,
        on_primary: gtk_color(ctx, "on_primary"@, "default"@)->0,
        secondary: gtk_color(ctx, "secondary"@, "default"@)->0,
        on_secondary: gtk_color(ctx, "on_secondary"@, "default"@)->0,
        tertiary: gtk_color(ctx, "tertiary"@, "default"@)->0,
        on_tertiary: gtk_color(ctx, "on_tertiary"@, "default"@)->0,
        error: gtk_color(ctx, "error"@, "default"@)->0,
        on_error: gtk_color(ctx, "on_error"@, "default"@)->0,
        surface: gtk_color(ctx, "surface"@, "default"@)->0,
        on_surface: gtk_color(ctx, "on_surface"@, "default"@)->0,
        surface_container: gtk_color_or(ctx, "surface_container"@, "surface"@, "default"@)->0,
        surface_container_high: gtk_color_or(ctx, "surface_container_high"@, "surface_variant"@, "default"@)->0,
        surface_container_low: gtk_color_or(ctx, "surface_container_low"@, "surface"@, "default"@)->0,
    }
}

/// The error `gtk_palette` reports: the message of the first color, in the
/// palette's order, that cannot be picked.
pub open spec fn palette_error(ctx: SchemeContext) -> Seq<char> {
    if gtk_color(ctx, "primary"@, "default"@) is None {
        "Required GTK color '"@ + "primary"@ + "' is missing"@
    } else if gtk_color(ctx, "on_primary"@, "default"@) is None {
        "Required GTK color '"@ + "on_primary"@ + "' is missing"@
    } else if gtk_color(ctx, "secondary"@, "default"@) is None {
        "Required GTK color '"@ + "secondary"@ + "' is missing"@
    } else if gtk_color(ctx, "on_secondary"@, "default"@) is None {
        "Required GTK color '"@ + "on_secondary"@ + "' is missing"@
    } else if gtk_color(ctx, "tertiary"@, "default"@) is None {
        "Required GTK color '"@ + "tertiary"@ + "' is missing"@
    } else if gtk_color(ctx, "on_tertiary"@, "default"@) is None {
        "Required GTK color '"@ + "on_tertiary"@ + "' is missing"@
    } else if gtk_color(ctx, "error"@, "default"@) is None {
        "Required GTK color '"@ + "error"@ + "' is missing"@
    } else if gtk_color(ctx, "on_error"@, "default"@) is None {
        "Required GTK color '"@ + "on_error"@ + "' is missing"@
    } else if gtk_color(ctx, "surface"@, "default"@) is None {
        "Required GTK color '"@ + "surface"@ + "' is missing"@
    } else if gtk_color(ctx, "on_surface"@, "default"@) is None {
        "Required GTK color '"@ + "on_surface"@ + "' is missing"@
    } else if gtk_color_or(ctx, "surface_container"@, "surface"@, "default"@) is None {
        "Required GTK colors '"@ + "surface_container"@ + "' and '"@ + "surface"@ + "' are missing"@
    } else if gtk_color_or(ctx, "surface_container_high"@, "surface_variant"@, "default"@) is None {
        "Required GTK colors '"@ + "surface_container_high"@ + "' and '"@ + "surface_variant"@ + "' are missing"@
    } else if gtk_color_or(ctx, "surface_container_low"@, "surface"@, "default"@) is None {
        "Required GTK colors '"@ + "surface_container_low"@ + "' and '"@ + "surface"@ + "' are missing"@
    } else {
        Seq::empty()
    }
}

/// `gtk_palette`: the palette, or the error of the first color missing.
pub fn gtk_palette(ctx: &SchemeContext) -> (r: Result<GtkPalette, String>)
    ensures
        r is Ok <==> palette_complete(*ctx),
        r matches Ok(p) ==> p@ == palette_of(*ctx),
        r matches Err(e) ==> e@ == palette_error(*ctx),
{
    let primary = match required_color(ctx, "primary", "default") {
        Ok(c) => c,
        Err(e) => return Err(e),
    };
    let on_primary = match required_color(ctx, "on_primary", "default") {
        Ok(c) => c,
        Err(e) => return Err(e),
    };
    let secondary = match required_color(ctx, "secondary", "default") {
        Ok(c) => c,
        Err(e) => return Err(e),
    };
    let on_secondary = match required_color(ctx, "on_secondary", "default") {
        Ok(c) => c,
        Err(e) => return Err(e),
    };
    let tertiary = match required_color(ctx, "tertiary", "default") {
        Ok(c) => c,
        Err(e) => return Err(e),
    };
    let on_tertiary = match required_color(ctx, "on_tertiary", "default") {
        Ok(c) => c,
        Err(e) => return Err(e),
    };
    let error = match required_color(ctx, "error", "default") {
        Ok(c) => c,
        Err(e) => return Err(e),
    };
    let on_error = match required_color(ctx, "on_error", "default") {
        Ok(c) => c,
        Err(e) => return Err(e),
    };
    let surface = match required_color(ctx, "surface", "default") {
        Ok(c) => c,
        Err(e) => return Err(e),
    };
    let on_surface = match required_color(ctx, "on_surface", "default") {
        Ok(c) => c,
        Err(e) => return Err(e),
    };
    let surface_container = match required_color_or(ctx, "surface_container", "surface", "default") {
        Ok(c) => c,
        Err(e) => return Err(e),
    };
    let surface_container_high = match required_color_or(ctx, "surface_container_high", "surface_variant", "default") {
        Ok(c) => c,
        Err(e) => return Err(e),
    };
    let surface_container_low = match required_color_or(ctx, "surface_container_low", "surface", "default") {
        Ok(c) => c,
        Err(e) => return Err(e),
    };
    Ok(GtkPalette {
        primary,
        on_primary,
        secondary,
        on_secondary,
        tertiary,
        on_tertiary,
        error,
        on_error,
        surface,
        on_surface,
        surface_container,
        surface_container_high,
        surface_container_low,
    })
}

// ── Recoloring the theme's CSS ───────────────────────────────────────────────

/// The `@define-color` names that take a palette color.
pub open spec fn define_map(p: PaletteView) -> Seq<(Seq<char>, Seq<char>)> {
    seq![
        ("accent_bg_color"@, p.primary),
        ("accent_fg_color"@, p.on_primary),
        ("destructive_bg_color"@, p.error),
        ("destructive_fg_color"@, p.on_error),
        ("success_bg_color"@, p.secondary),
        ("success_fg_color"@, p.on_secondary),
        ("warning_bg_color"@, p.tertiary),
        ("warning_fg_color"@, p.on_tertiary),
        ("error_bg_color"@, p.error),
        ("error_fg_color"@, p.on_error),
        ("window_bg_color"@, p.surface),
        ("window_fg_color"@, p.on_surface),
        ("view_bg_color"@, p.surface_container_low),
        ("view_fg_color"@, p.on_surface),
        ("headerbar_bg_color"@, p.surface_container),
        ("headerbar_fg_color"@, p.on_surface),
        ("headerbar_backdrop_color"@, p.surface),
        ("sidebar_bg_color"@, p.surface_container),
        ("sidebar_fg_color"@, p.on_surface),
        ("sidebar_backdrop_color"@, p.surface),
        ("secondary_sidebar_bg_color"@, p.surface_container),
        ("secondary_sidebar_fg_color"@, p.on_surface),
        ("secondary_sidebar_backdrop_color"@, p.surface),
        ("card_bg_color"@, p.surface_container_high),
        ("card_fg_color"@, p.on_surface),
        ("dialog_bg_color"@, p.surface_container_high),
        ("dialog_fg_color"@, p.on_surface),
        ("popover_bg_color"@, p.surface_container_high),
        ("popover_fg_color"@, p.on_surface),
        ("thumbnail_bg_color"@, p.surface_container_high),
        ("thumbnail_fg_color"@, p.on_surface),
        ("panel_bg_color"@, p.surface),
        ("panel_fg_color"@, p.on_surface),
    ]
}

fn define_map_exec(p: &GtkPalette) -> (r: Vec<(&'static str, &str)>)
    ensures
        r@.map_values(|e: (&'static str, &str)| (e.0@, e.1@)) == define_map(p@),
{
    let r: Vec<(&'static str, &str)> = vec![
        ("accent_bg_color", p.primary.as_str()),
        ("accent_fg_color", p.on_primary.as_str()),
        ("destructive_bg_color", p.error.as_str()),
        ("destructive_fg_color", p.on_error.as_str()),
        ("success_bg_color", p.secondary.as_str()),
        ("success_fg_color", p.on_secondary.as_str()),
        ("warning_bg_color", p.tertiary.as_str()),
        ("warning_fg_color", p.on_tertiary.as_str()),
        ("error_bg_color", p.error.as_str()),
        ("error_fg_color", p.on_error.as_str()),
        ("window_bg_color", p.surface.as_str()),
        ("window_fg_color", p.on_surface.as_str()),
        ("view_bg_color", p.surface_container_low.as_str()),
        ("view_fg_color", p.on_surface.as_str()),
        ("headerbar_bg_color", p.surface_container.as_str()),
        ("headerbar_fg_color", p.on_surface.as_str()),
        ("headerbar_backdrop_color", p.surface.as_str()),
        ("sidebar_bg_color", p.surface_container.as_str()),
        ("sidebar_fg_color", p.on_surface.as_str()),
        ("sidebar_backdrop_color", p.surface.as_str()),
        ("secondary_sidebar_bg_color", p.surface_container.as_str()),
        ("secondary_sidebar_fg_color", p.on_surface.as_str()),
        ("secondary_sidebar_backdrop_color", p.surface.as_str()),
        ("card_bg_color", p.surface_container_high.as_str()),
        ("card_fg_color", p.on_surface.as_str()),
        ("dialog_bg_color", p.surface_container_high.as_str()),
        ("dialog_fg_color", p.on_surface.as_str()),
        ("popover_bg_color", p.surface_container_high.as_str()),
        ("popover_fg_color", p.on_surface.as_str()),
        ("thumbnail_bg_color", p.surface_container_high.as_str()),
        ("thumbnail_fg_color", p.on_surface.as_str()),
        ("panel_bg_color", p.surface.as_str()),
        ("panel_fg_color", p.on_surface.as_str()),
    ];
    assert(r@.map_values(|e: (&'static str, &str)| (e.0@, e.1@)) =~= define_map(p@));
    r
}

/// The CSS variables that take a palette color, in the order they are rewritten.
pub open spec fn css_var_map(p: PaletteView) -> Seq<(Seq<char>, Seq<char>)> {
    seq![
        ("accent-blue"@, p.primary),
        ("accent-bg-color"@, p.primary),
        ("accent-fg-color"@, p.on_primary),
        ("destructive-bg-color"@, p.error),
        ("destructive-fg-color"@, p.on_error),
        ("success-bg-color"@, p.secondary),
        ("success-fg-color"@, p.on_secondary),
        ("warning-bg-color"@, p.tertiary),
        ("warning-fg-color"@, p.on_tertiary),
        ("error-bg-color"@, p.error),
        ("error-fg-color"@, p.on_error),
        ("window-bg-color"@, p.surface),
        ("window-fg-color"@, p.on_surface),
        ("view-bg-color"@, p.surface_container_low),
        ("view-fg-color"@, p.on_surface),
        ("headerbar-bg-color"@, p.surface_container),
        ("headerbar-fg-color"@, p.on_surface),
        ("sidebar-bg-color"@, p.surface_container),
        ("sidebar-fg-color"@, p.on_surface),
        ("card-bg-color"@, p.surface_container_high),
        ("card-fg-color"@, p.on_surface),
        ("dialog-bg-color"@, p.surface_container_high),
        ("dialog-fg-color"@, p.on_surface),
        ("popover-bg-color"@, p.surface_container_high),
        ("popover-fg-color"@, p.on_surface),
    ]
}

fn css_var_map_exec(p: &GtkPalette) -> (r: Vec<(&'static str, &str)>)
    ensures
        r@.map_values(|e: (&'static str, &str)| (e.0@, e.1@)) == css_var_map(p@),
{
    let r: Vec<(&'static str, &str)> = vec![
        ("accent-blue", p.primary.as_str()),
        ("accent-bg-color", p.primary.as_str()),
        ("accent-fg-color", p.on_primary.as_str()),
        ("destructive-bg-color", p.error.as_str()),
        ("destructive-fg-color", p.on_error.as_str()),
        ("success-bg-color", p.secondary.as_str()),
        ("success-fg-color", p.on_secondary.as_str()),
        ("warning-bg-color", p.tertiary.as_str()),
        ("warning-fg-color", p.on_tertiary.as_str()),
        ("error-bg-color", p.error.as_str()),
        ("error-fg-color", p.on_error.as_str()),
        ("window-bg-color", p.surface.as_str()),
        ("window-fg-color", p.on_surface.as_str()),
        ("view-bg-color", p.surface_container_low.as_str()),
        ("view-fg-color", p.on_surface.as_str()),
        ("headerbar-bg-color", p.surface_container.as_str()),
        ("headerbar-fg-color", p.on_surface.as_str()),
        ("sidebar-bg-color", p.surface_container.as_str()),
        ("sidebar-fg-color", p.on_surface.as_str()),
        ("card-bg-color", p.surface_container_high.as_str()),
        ("card-fg-color", p.on_surface.as_str()),
        ("dialog-bg-color", p.surface_container_high.as_str()),
        ("dialog-fg-color", p.on_surface.as_str()),
        ("popover-bg-color", p.surface_container_high.as_str()),
        ("popover-fg-color", p.on_surface.as_str()),
    ];
    assert(r@.map_values(|e: (&'static str, &str)| (e.0@, e.1@)) =~= css_var_map(p@));
    r
}


/// The index of the first whitespace character, or the length.
pub open spec fn ws_index(t: Seq<char>) -> nat
    decreases t.len(),
{
    if t.len() == 0 || text::is_ws(t[0]) {
        0
    } else {
        1 + ws_index(t.drop_first())
    }
}

/// `split_whitespace().next().unwrap_or_default()`.
pub open spec fn first_token(s: Seq<char>) -> Seq<char> {
    let t = text::trim_start(s);
    t.take(ws_index(t) as int)
}

proof fn lemma_ws_index(t: Seq<char>, i: int)
    requires
        0 <= i <= t.len(),
        forall|j: int| 0 <= j < i ==> !text::is_ws(#[trigger] t[j]),
        i == t.len() || text::is_ws(t[i]),
    ensures
        ws_index(t) == i,
    decreases i,
{
    if i > 0 {
        assert(!text::is_ws(t[0]));
        assert forall|j: int| 0 <= j < i - 1 implies !text::is_ws(#[trigger] t.drop_first()[j]) by {
            assert(!text::is_ws(t[j + 1]));
        }
        lemma_ws_index(t.drop_first(), i - 1);
    }
}

fn first_token_exec(s: &[char]) -> (r: Vec<char>)
    ensures
        r@ == first_token(s@),
{
    let t = text::trim_start_exec(s);
    let mut i: usize = 0;
    while i < t.len() && !text::is_ws_exec(t[i])
        invariant
            i <= t.len(),
            forall|j: int| 0 <= j < i ==> !text::is_ws(#[trigger] t@[j]),
        decreases t.len() - i,
    {
        i = i + 1;
    }
    proof {
        lemma_ws_index(t@, i as int);
    }
    let r = text::slice_of(&t, 0, i);
    assert(r@ =~= t@.take(i as int));
    r
}

/// The value of the first pair whose name is `k`.
pub open spec fn lookup(m: Seq<(Seq<char>, Seq<char>)>, k: Seq<char>) -> Option<Seq<char>>
    decreases m.len(),
{
    if m.len() == 0 {
        None
    } else if m[0].0 == k {
        Some(m[0].1)
    } else {
        lookup(m.drop_first(), k)
    }
}

fn lookup_exec<'a>(m: &Vec<(&'static str, &'a str)>, k: &[char]) -> (r: Option<&'a str>)
    ensures
        r matches Some(h) ==> lookup(m@.map_values(|e: (&'static str, &'a str)| (e.0@, e.1@)), k@)
            == Some(h@),
        r is None ==> lookup(m@.map_values(|e: (&'static str, &'a str)| (e.0@, e.1@)), k@) is None,
{
    let ghost mv = m@.map_values(|e: (&'static str, &'a str)| (e.0@, e.1@));
    let mut i: usize = 0;
    assert(mv.skip(0) =~= mv);
    while i < m.len()
        invariant
            i <= m.len(),
            mv == m@.map_values(|e: (&'static str, &'a str)| (e.0@, e.1@)),
            lookup(mv, k@) == lookup(mv.skip(i as int), k@),
        decreases m.len() - i,
    {
        let (key, hex) = m[i];
        assert(mv.skip(i as int)[0] == mv[i as int]);
        assert(mv.skip(i as int).drop_first() =~= mv.skip(i + 1));
        if text::eq_str(k, key) {
            return Some(hex);
        }
        i = i + 1;
    }
    None
}

/// One line of the theme's CSS with its `@define-color` recolored where the
/// name is one the palette sets; any other line as it is.
pub open spec fn define_line(line: Seq<char>, p: PaletteView) -> Seq<char> {
    let t = text::trim_start(line);
    let head = "@define-color "@;
    if text::starts_with(t, head) {
        let name = first_token(t.skip(head.len() as int));
        match lookup(define_map(p), name) {
            Some(hex) => line.take(line.len() - t.len()) + head + name + seq![' '] + hex + seq![';'],
            None => line,
        }
    } else {
        line
    }
}

fn define_line_exec(line: &[char], defines: &Vec<(&'static str, &str)>, Ghost(p): Ghost<PaletteView>) -> (r:
    Vec<char>)
    requires
        defines@.map_values(|e: (&'static str, &str)| (e.0@, e.1@)) == define_map(p),
    ensures
        r@ == define_line(line@, p),
{
    let t = text::trim_start_exec(line);
    let head = "@define-color ";
    proof {
        text::lemma_trim_start_suffix(line@);
        reveal_strlit("@define-color ");
    }
    if !text::starts_with_str(&t, head) {
        let same = text::slice_of(line, 0, line.len());
        assert(same@ =~= line@);
        return same;
    }
    let rest = text::slice_of(&t, 14, t.len());
    assert(rest@ =~= t@.skip(14));
    let name = first_token_exec(&rest);
    match lookup_exec(defines, &name) {
        Some(hex) => {
            let mut out = text::slice_of(line, 0, line.len() - t.len());
            text::push_str(&mut out, head);
            text::push_all(&mut out, &name);
            out.push(' ');
            text::push_str(&mut out, hex);
            out.push(';');
            assert(out@ =~= define_line(line@, p));
            out
        },
        None => {
            let same = text::slice_of(line, 0, line.len());
            assert(same@ =~= line@);
            same
        },
    }
}

/// The first step of `rewrite_css_colors`: every line through `define_line`,
/// joined with `\n` (no final line break).
pub open spec fn recolor_defines_of(content: Seq<char>, p: PaletteView) -> Seq<char> {
    text::join(text::lines(content).map_values(|l: Seq<char>| define_line(l, p)), seq!['\n'])
}

pub fn recolor_defines(content: &str, palette: &GtkPalette) -> (r: String)
    ensures
        r@ == recolor_defines_of(content@, palette@),
{
    let cv = text::chars_of(content);
    let ls = text::lines_exec(&cv);
    let ghost lv = text::lines(content@);
    let defines = define_map_exec(palette);
    let mut out: Vec<Vec<char>> = Vec::new();
    let mut i: usize = 0;
    while i < ls.len()
        invariant
            i <= ls.len(),
            text::views(ls@) == lv,
            defines@.map_values(|e: (&'static str, &str)| (e.0@, e.1@)) == define_map(palette@),
            out.len() == i,
            forall|k: int| 0 <= k < i ==> #[trigger] out@[k]@ == define_line(lv[k], palette@),
        decreases ls.len() - i,
    {
        assert(ls@[i as int]@ == lv[i as int]);
        let l = define_line_exec(&ls[i], &defines, Ghost(palette@));
        out.push(l);
        i = i + 1;
    }
    let ghost mapped = lv.map_values(|l: Seq<char>| define_line(l, palette@));
    assert(text::views(out@) =~= mapped);
    let mut u = text::unlines_exec(&out);
    u.pop();
    assert(u@ =~= text::join(mapped, seq!['\n']));
    text::string_of(&u)
}

/// The pattern of the declarations of the CSS variable whose escaped name
/// is given: `--NAME:`, spaces, then a color, a `@` name, or a `var()`,
/// `RGB()` or `rgb()` value, and `;`.
pub open spec fn css_var_pattern(escaped: Seq<char>) -> Seq<char> {
    "--"@ + escaped + ":\\s*(?:#[0-9A-Fa-f]{6}|@[A-Za-z0-9_-]+|var\\([^)]+\\)|RGB\\([^)]+\\)|rgb\\([^)]+\\));"@
}

/// The declarations of the variable `name` replaced by `replacement`.
pub open spec fn css_var_replaced(content: Seq<char>, name: Seq<char>, replacement: Seq<char>) -> Seq<char> {
    regex_replaced_all(css_var_pattern(regex_escaped(name)), content, replacement)
}

fn css_var_replace(content: &str, name: &str, replacement: &str) -> (r: String)
    ensures
        r@ == css_var_replaced(content@, name@, replacement@),
{
    let escaped = regex_escape(name);
    let mut pattern = text::chars_of("--");
    text::push_str(&mut pattern, escaped.as_str());
    text::push_str(&mut pattern, ":\\s*(?:#[0-9A-Fa-f]{6}|@[A-Za-z0-9_-]+|var\\([^)]+\\)|RGB\\([^)]+\\)|rgb\\([^)]+\\));");
    regex_replace_all(text::string_of(&pattern).as_str(), content, replacement)
}

/// `--NAME: HEX;`.
pub open spec fn css_var_decl(name: Seq<char>, hex: Seq<char>) -> Seq<char> {
    "--"@ + name + ": "@ + hex + ";"@
}

/// The variables rewritten one after the other, in order.
pub open spec fn css_rewrites(content: Seq<char>, vars: Seq<(Seq<char>, Seq<char>)>) -> Seq<char>
    decreases vars.len(),
{
    if vars.len() == 0 {
        content
    } else {
        css_rewrites(
            css_var_replaced(content, vars[0].0, css_var_decl(vars[0].0, vars[0].1)),
            vars.drop_first(),
        )
    }
}

/// `rewrite_css_colors`: the `@define-color` lines recolored, then each
/// palette CSS variable's declarations replaced.
pub open spec fn rewrite_css_of(content: Seq<char>, p: PaletteView) -> Seq<char> {
    css_rewrites(recolor_defines_of(content, p), css_var_map(p))
}

pub fn rewrite_css_colors(content: &str, palette: &GtkPalette) -> (r: String)
    ensures
        r@ == rewrite_css_of(content@, palette@),
{
    let mut current = recolor_defines(content, palette);
    let vars = css_var_map_exec(palette);
    let ghost vv = css_var_map(palette@);
    let mut i: usize = 0;
    assert(vv.skip(0) =~= vv);
    while i < vars.len()
        invariant
            i <= vars.len(),
            vars@.map_values(|e: (&'static str, &str)| (e.0@, e.1@)) == vv,
            rewrite_css_of(content@, palette@) == css_rewrites(current@, vv.skip(i as int)),
        decreases vars.len() - i,
    {
        let (name, hex) = vars[i];
        assert(vv[i as int] == (name@, hex@));
        assert(vv.skip(i as int)[0] == vv[i as int]);
        assert(vv.skip(i as int).drop_first() =~= vv.skip(i + 1));
        let mut decl = text::chars_of("--");
        text::push_str(&mut decl, name);
        text::push_str(&mut decl, ": ");
        text::push_str(&mut decl, hex);
        text::push_str(&mut decl, ";");
        assert(decl@ =~= css_var_decl(name@, hex@));
        let d = text::string_of(&decl);
        current = css_var_replace(current.as_str(), name, d.as_str());
        i = i + 1;
    }
    assert(vv.skip(vars.len() as int) =~= Seq::<(Seq<char>, Seq<char>)>::empty());
    current
}

// ── The GTK settings file ────────────────────────────────────────────────────

/// The lines of a file that has no `[Settings]` group, with one added at the
/// end (after a blank line when the file had lines) holding `key=value`.
pub open spec fn settings_appended(ls: Seq<Seq<char>>, key: Seq<char>, value: Seq<char>) -> Seq<Seq<char>> {
    let gap: Seq<Seq<char>> = if ls.len() > 0 {
        seq![Seq::<char>::empty()]
    } else {
        Seq::empty()
    };
    ls + gap + seq![group_header("Settings"@), kv_line(key, value)]
}

/// `upsert_ini_setting`: inside `[Settings]` as `upsert_ini_value` does it;
/// a file without that group gets it appended.
pub open spec fn upsert_ini_setting_of(content: Seq<char>, key: Seq<char>, value: Seq<char>) -> Seq<char> {
    if has_group(content, "Settings"@) {
        upsert_ini_value_of(content, "Settings"@, key, value)
    } else {
        text::unlines(settings_appended(text::lines(content), key, value))
    }
}

pub fn upsert_ini_setting(content: &str, key: &str, value: &str) -> (r: String)
    ensures
        r@ == upsert_ini_setting_of(content@, key@, value@),
{
    let cv = text::chars_of(content);
    let ls = text::lines_exec(&cv);
    let ghost lv = text::lines(content@);
    let mut header: Vec<char> = Vec::new();
    header.push('[');
    text::push_str(&mut header, "Settings");
    header.push(']');
    assert(header@ =~= group_header("Settings"@));
    let mut found = false;
    let mut i: usize = 0;
    while i < ls.len()
        invariant
            i <= ls.len(),
            text::views(ls@) == lv,
            header@ == group_header("Settings"@),
            found <==> exists|j: int| 0 <= j < i && trim(#[trigger] lv[j]) == group_header("Settings"@),
        decreases ls.len() - i,
    {
        assert(ls@[i as int]@ == lv[i as int]);
        let t = text::trim_exec(&ls[i]);
        if text::seq_eq(&t, &header) {
            found = true;
        }
        i = i + 1;
    }
    if found {
        return upsert_ini_value(content, "Settings", key, value);
    }
    let mut out: Vec<Vec<char>> = Vec::new();
    let mut k: usize = 0;
    while k < ls.len()
        invariant
            k <= ls.len(),
            text::views(ls@) == lv,
            out.len() == k,
            forall|j: int| 0 <= j < k ==> #[trigger] out@[j]@ == lv[j],
        decreases ls.len() - k,
    {
        assert(ls@[k as int]@ == lv[k as int]);
        let c = text::slice_of(&ls[k], 0, ls[k].len());
        assert(c@ =~= lv[k as int]);
        out.push(c);
        k = k + 1;
    }
    assert(text::views(out@) =~= lv);
    let ghost gap: Seq<Seq<char>> = if ls.len() > 0 {
        seq![Seq::<char>::empty()]
    } else {
        Seq::empty()
    };
    if ls.len() > 0 {
        let e: Vec<char> = Vec::new();
        assert(e@ =~= Seq::<char>::empty());
        out.push(e);
    }
    assert(text::views(out@) =~= lv + gap);
    out.push(header);
    let mut kv = text::chars_of(key);
    kv.push('=');
    text::push_str(&mut kv, value);
    assert(kv@ =~= kv_line(key@, value@));
    out.push(kv);
    assert(text::views(out@) =~= settings_appended(lv, key@, value@));
    let u = text::unlines_exec(&out);
    text::string_of(&u)
}

proof fn lemma_read_past(a: Seq<Seq<char>>, b: Seq<Seq<char>>, section: Seq<char>, property: Seq<char>)
    requires
        forall|i: int| 0 <= i < a.len() ==> trim(#[trigger] a[i]) != group_header(section),
    ensures
        read_lines(a + b, false, section, property) == read_lines(b, false, section, property),
    decreases a.len(),
{
    if a.len() > 0 {
        assert((a + b)[0] == a[0]);
        assert((a + b).drop_first() =~= a.drop_first() + b);
        assert forall|i: int| 0 <= i < a.drop_first().len() implies trim(
            #[trigger] a.drop_first()[i],
        ) != group_header(section) by {
            assert(a.drop_first()[i] == a[i + 1]);
        }
        lemma_read_past(a.drop_first(), b, section, property);
    } else {
        assert(a + b =~= b);
    }
}

/// Writing `key=value` with `upsert_ini_setting` and reading `key` from
/// `[Settings]` gives the value back, whatever the file held before.
pub proof fn lemma_read_after_upsert_setting(content: Seq<char>, key: Seq<char>, value: Seq<char>)
    requires
        plain_entry(key, value),
    ensures
        read_ini_value_of(upsert_ini_setting_of(content, key, value), "Settings"@, key) == Some(value),
{
    if has_group(content, "Settings"@) {
        reveal_strlit("Settings");
        lemma_header_untouched("Settings"@, key);
        lemma_read_after_upsert(content, "Settings"@, key, value);
    } else {
        let ls = text::lines(content);
        let header = group_header("Settings"@);
        let kv = kv_line(key, value);
        let out = settings_appended(ls, key, value);
        reveal_strlit("Settings");
        lemma_kv_facts(key, value);
        text::lemma_lines_free(content);
        assert(text::none_hold(out, '\n')) by {
            assert forall|i: int, j: int| 0 <= i < out.len() && 0 <= j < out[i].len() implies #[trigger] out[i][j]
                != '\n' by {
                if i < ls.len() {
                    assert(out[i] == ls[i]);
                } else if i == out.len() - 1 {
                    assert(out[i] == kv);
                    assert(text::free_of(kv, '\n'));
                }
            }
        }
        text::lemma_lines_unlines(out);
        let gap: Seq<Seq<char>> = if ls.len() > 0 {
            seq![Seq::<char>::empty()]
        } else {
            Seq::empty()
        };
        let front = text::strip_cr_all(ls + gap);
        let back = seq![header, kv];
        assert(text::strip_cr(header) == header);
        assert(text::strip_cr(kv) == kv) by {
            if kv.last() == '\r' {
                assert(value.len() > 0 ==> kv.last() == value.last());
            }
        }
        assert(text::strip_cr_all(out) =~= front + back);
        assert forall|i: int| 0 <= i < front.len() implies trim(#[trigger] front[i]) != header by {
            text::lemma_trim_strip_cr((ls + gap)[i]);
            if i < ls.len() {
                assert((ls + gap)[i] == ls[i]);
                if trim(ls[i]) == header {
                    assert(has_group(content, "Settings"@));
                }
            } else {
                assert((ls + gap)[i] == Seq::<char>::empty());
                assert(trim(Seq::<char>::empty()) =~= Seq::<char>::empty());
            }
        }
        lemma_read_past(front, back, "Settings"@, key);
        assert(header[0] == '[');
        assert(header.last() == ']');
        assert(text::trim_start(header) == header);
        assert(text::trim_end(header) == header);
        assert(trim(header) == header);
        assert(is_group_line(header));
        assert(back.drop_first() =~= seq![kv]);
        assert(read_lines(seq![kv], true, "Settings"@, key) == Some(value));
        assert(read_lines(back, false, "Settings"@, key) == Some(value));
        assert(text::lines(text::unlines(out)) == front + back);
        assert(upsert_ini_setting_of(content, key, value) == text::unlines(out));
    }
}

// ── Files and commands ───────────────────────────────────────────────────────

/// The bundled theme a scheme starts from, and the name it is installed under.
pub fn gtk_theme_names(dark: bool) -> (r: (&'static str, &'static str))
    ensures
        r.0@ == (if dark { "adw-gtk3-dark"@ } else { "adw-gtk3"@ }),
        r.1@ == (if dark { "Matugen-Adw-Dark"@ } else { "Matugen-Adw"@ }),
{
    if dark {
        ("adw-gtk3-dark", "Matugen-Adw-Dark")
    } else {
        ("adw-gtk3", "Matugen-Adw")
    }
}

/// The `index.theme` of an installed theme.
pub open spec fn index_theme_of(theme_name: Seq<char>, dark: bool) -> Seq<char> {
    let comment = if dark {
        "Matugen generated dark adw-gtk3 theme"@
    } else {
        "Matugen generated light adw-gtk3 theme"@
    };
    "[X-GNOME-Metatheme]\nName="@ + theme_name + "\nType=X-GNOME-Metatheme\nComment="@ + comment
        + "\nEncoding=UTF-8\nGtkTheme="@ + theme_name + "\n"@
}

pub fn index_theme_text(theme_name: &str, dark: bool) -> (r: String)
    ensures
        r@ == index_theme_of(theme_name@, dark),
{
    let comment = if dark {
        "Matugen generated dark adw-gtk3 theme"
    } else {
        "Matugen generated light adw-gtk3 theme"
    };
    let mut out = text::chars_of("[X-GNOME-Metatheme]\nName=");
    text::push_str(&mut out, theme_name);
    text::push_str(&mut out, "\nType=X-GNOME-Metatheme\nComment=");
    text::push_str(&mut out, comment);
    text::push_str(&mut out, "\nEncoding=UTF-8\nGtkTheme=");
    text::push_str(&mut out, theme_name);
    text::push_str(&mut out, "\n");
    assert(out@ =~= index_theme_of(theme_name@, dark));
    text::string_of(&out)
}

/// The `gsettings` command that selects the GTK theme.
pub fn gtk_theme_command(theme_name: &str) -> (r: String)
    ensures
        r@ == "gsettings set org.gnome.desktop.interface gtk-theme '"@ + theme_name@ + "'"@,
{
    let mut out = text::chars_of("gsettings set org.gnome.desktop.interface gtk-theme '");
    text::push_str(&mut out, theme_name);
    text::push_str(&mut out, "'");
    text::string_of(&out)
}

/// The `gsettings` command that selects the color scheme.
pub fn color_scheme_command(dark: bool) -> (r: String)
    ensures
        r@ == "gsettings set org.gnome.desktop.interface color-scheme '"@ + (if dark {
            "prefer-dark"@
        } else {
            "default"@
        }) + "'"@,
{
    let mut out = text::chars_of("gsettings set org.gnome.desktop.interface color-scheme '");
    text::push_str(&mut out, if dark { "prefer-dark" } else { "default" });
    text::push_str(&mut out, "'");
    text::string_of(&out)
}

/// The mark that user CSS written by this program carries.
pub open spec fn css_marker() -> Seq<char> {
    "Generated by Matugen Studio"@
}

/// The comment line put before installed user CSS.
pub open spec fn css_marker_line() -> Seq<char> {
    "/* Generated by Matugen Studio. Previous user CSS is backed up next to this file. */\n"@
}

/// User CSS with the marker line put first; `None` where it already holds the mark.
pub fn with_generated_marker(content: &str) -> (r: Option<String>)
    ensures
        r is None <==> text::contains(content@, css_marker()),
        r matches Some(s) ==> s@ == css_marker_line() + content@,
{
    let cv = text::chars_of(content);
    if text::contains_str(&cv, "Generated by Matugen Studio") {
        return None;
    }
    let mut out = text::chars_of(
        "/* Generated by Matugen Studio. Previous user CSS is backed up next to this file. */\n",
    );
    text::push_all(&mut out, &cv);
    Some(text::string_of(&out))
}

/// The user CSS needs a backup before it is replaced: it is not one this
/// program wrote.
pub fn needs_css_backup(current: &str) -> (r: bool)
    ensures
        r == !text::contains(current@, css_marker()),
{
    let cv = text::chars_of(current);
    !text::contains_str(&cv, "Generated by Matugen Studio")
}

/// The extension of a user CSS file's backup: its own extension (or `bak`)
/// followed by `.matugen-studio.bak`.
pub fn css_backup_extension(extension: Option<&str>) -> (r: String)
    ensures
        r@ == (match extension {
            Some(e) => e@,
            None => "bak"@,
        }) + ".matugen-studio.bak"@,
{
    let mut out = match extension {
        Some(e) => text::chars_of(e),
        None => text::chars_of("bak"),
    };
    text::push_str(&mut out, ".matugen-studio.bak");
    text::string_of(&out)
}


// ── Which palette color each `@define-color` takes ──────────────────────────

/// A `@define-color` line for `name`, with whatever follows the name.
pub open spec fn define_decl(name: Seq<char>, rest: Seq<char>) -> Seq<char> {
    "@define-color "@ + name + seq![' '] + rest
}

/// The recolored declaration of `name` with the color `hex`.
pub open spec fn recolored_decl(name: Seq<char>, hex: Seq<char>) -> Seq<char> {
    "@define-color "@ + name + seq![' '] + hex + seq![';']
}

spec fn absent_before(m: Seq<(Seq<char>, Seq<char>)>, k: Seq<char>, i: nat) -> bool
    decreases i,
{
    i == 0 || (m[i - 1].0 != k && absent_before(m, k, (i - 1) as nat))
}

proof fn lemma_absent_before(m: Seq<(Seq<char>, Seq<char>)>, k: Seq<char>, i: nat)
    requires
        absent_before(m, k, i),
    ensures
        forall|j: int| 0 <= j < i ==> (#[trigger] m[j]).0 != k,
    decreases i,
{
    if i > 0 {
        lemma_absent_before(m, k, (i - 1) as nat);
    }
}

proof fn lemma_lookup_at(m: Seq<(Seq<char>, Seq<char>)>, k: Seq<char>, i: int)
    requires
        0 <= i < m.len(),
        m[i].0 == k,
        forall|j: int| 0 <= j < i ==> (#[trigger] m[j]).0 != k,
    ensures
        lookup(m, k) == Some(m[i].1),
    decreases i,
{
    if i > 0 {
        assert(m[0].0 != k);
        let r = m.drop_first();
        assert forall|j: int| 0 <= j < i - 1 implies (#[trigger] r[j]).0 != k by {
            assert(r[j] == m[j + 1]);
        }
        assert(r[i - 1] == m[i]);
        lemma_lookup_at(r, k, i - 1);
    }
}

/// A name the palette sets, as the first word after `@define-color`, makes
/// the line that declaration with the name's color.
proof fn lemma_define_line_known(name: Seq<char>, rest: Seq<char>, p: PaletteView, hex: Seq<char>)
    requires
        name.len() > 0,
        forall|i: int| 0 <= i < name.len() ==> !text::is_ws(#[trigger] name[i]),
        text::free_of(rest, '\n'),
        lookup(define_map(p), name) == Some(hex),
    ensures
        recolor_defines_of(define_decl(name, rest), p) == recolored_decl(name, hex),
{
    reveal_strlit("@define-color ");
    let head = "@define-color "@;
    let line = define_decl(name, rest);
    assert(line[0] == '@');
    assert(text::trim_start(line) == line);
    assert(line.subrange(0, 14) =~= head);
    let x = line.skip(14);
    assert(x =~= name + seq![' '] + rest);
    assert(x[0] == name[0]);
    assert(text::trim_start(x) == x);
    assert forall|j: int| 0 <= j < name.len() implies !text::is_ws(#[trigger] x[j]) by {
        assert(x[j] == name[j]);
    }
    assert(x[name.len() as int] == ' ');
    lemma_ws_index(x, name.len() as int);
    assert(x.take(name.len() as int) =~= name);
    assert(first_token(x) == name);
    assert(line.take(0) =~= Seq::<char>::empty());
    assert(define_line(line, p) =~= recolored_decl(name, hex));
    assert(text::free_of(line, '\n')) by {
        assert forall|j: int| 0 <= j < line.len() implies #[trigger] line[j] != '\n' by {
            if j >= 14 && j < 14 + name.len() {
                assert(line[j] == name[j - 14]);
            } else if j >= 15 + name.len() {
                assert(line[j] == rest[j - 15 - name.len()]);
            }
        }
    }
    text::lemma_lines_single(line);
    let mapped = seq![line].map_values(|l: Seq<char>| define_line(l, p));
    assert(mapped =~= seq![define_line(line, p)]);
}

proof fn lemma_define_role_accent_bg_color(p: PaletteView, rest: Seq<char>)
    requires
        text::free_of(rest, '\n'),
    ensures
        recolored_decl("accent_bg_color"@, p.primary) == recolor_defines_of(define_decl("accent_bg_color"@, rest), p),
{
    reveal_strlit("accent_bg_color");
    reveal_with_fuel(absent_before, 1);
    lemma_absent_before(define_map(p), "accent_bg_color"@, 0);
    lemma_lookup_at(define_map(p), "accent_bg_color"@, 0);
    lemma_define_line_known("accent_bg_color"@, rest, p, p.primary);
}

proof fn lemma_define_role_accent_fg_color(p: PaletteView, rest: Seq<char>)
    requires
        text::free_of(rest, '\n'),
    ensures
        recolored_decl("accent_fg_color"@, p.on_primary) == recolor_defines_of(define_decl("accent_fg_color"@, rest), p),
{
    reveal_strlit("accent_bg_color");
    reveal_strlit("accent_fg_color");
    assert("accent_bg_color"@[7] != "accent_fg_color"@[7]);
    reveal_with_fuel(absent_before, 2);
    lemma_absent_before(define_map(p), "accent_fg_color"@, 1);
    lemma_lookup_at(define_map(p), "accent_fg_color"@, 1);
    lemma_define_line_known("accent_fg_color"@, rest, p, p.on_primary);
}

proof fn lemma_define_role_destructive_bg_color(p: PaletteView, rest: Seq<char>)
    requires
        text::free_of(rest, '\n'),
    ensures
        recolored_decl("destructive_bg_color"@, p.error) == recolor_defines_of(define_decl("destructive_bg_color"@, rest), p),
{
    reveal_strlit("accent_bg_color");
    reveal_strlit("accent_fg_color");
    reveal_strlit("destructive_bg_color");
    assert("accent_bg_color"@.len() != "destructive_bg_color"@.len());
    assert("accent_fg_color"@.len() != "destructive_bg_color"@.len());
    reveal_with_fuel(absent_before, 3);
    lemma_absent_before(define_map(p), "destructive_bg_color"@, 2);
    lemma_lookup_at(define_map(p), "destructive_bg_color"@, 2);
    lemma_define_line_known("destructive_bg_color"@, rest, p, p.error);
}

proof fn lemma_define_role_destructive_fg_color(p: PaletteView, rest: Seq<char>)
    requires
        text::free_of(rest, '\n'),
    ensures
        recolored_decl("destructive_fg_color"@, p.on_error) == recolor_defines_of(define_decl("destructive_fg_color"@, rest), p),
{
    reveal_strlit("accent_bg_color");
    reveal_strlit("accent_fg_color");
    reveal_strlit("destructive_bg_color");
    reveal_strlit("destructive_fg_color");
    assert("accent_bg_color"@.len() != "destructive_fg_color"@.len());
    assert("accent_fg_color"@.len() != "destructive_fg_color"@.len());
    assert("destructive_bg_color"@[12] != "destructive_fg_color"@[12]);
    reveal_with_fuel(absent_before, 4);
    lemma_absent_before(define_map(p), "destructive_fg_color"@, 3);
    lemma_lookup_at(define_map(p), "destructive_fg_color"@, 3);
    lemma_define_line_known("destructive_fg_color"@, rest, p, p.on_error);
}

proof fn lemma_define_role_success_bg_color(p: PaletteView, rest: Seq<char>)
    requires
        text::free_of(rest, '\n'),
    ensures
        recolored_decl("success_bg_color"@, p.secondary) == recolor_defines_of(define_decl("success_bg_color"@, rest), p),
{
    reveal_strlit("accent_bg_color");
    reveal_strlit("accent_fg_color");
    reveal_strlit("destructive_bg_color");
    reveal_strlit("destructive_fg_color");
    reveal_strlit("success_bg_color");
    assert("accent_bg_color"@.len() != "success_bg_color"@.len());
    assert("accent_fg_color"@.len() != "success_bg_color"@.len());
    assert("destructive_bg_color"@.len() != "success_bg_color"@.len());
    assert("destructive_fg_color"@.len() != "success_bg_color"@.len());
    reveal_with_fuel(absent_before, 5);
    lemma_absent_before(define_map(p), "success_bg_color"@, 4);
    lemma_lookup_at(define_map(p), "success_bg_color"@, 4);
    lemma_define_line_known("success_bg_color"@, rest, p, p.secondary);
}

proof fn lemma_define_role_success_fg_color(p: PaletteView, rest: Seq<char>)
    requires
        text::free_of(rest, '\n'),
    ensures
        recolored_decl("success_fg_color"@, p.on_secondary) == recolor_defines_of(define_decl("success_fg_color"@, rest), p),
{
    reveal_strlit("accent_bg_color");
    reveal_strlit("accent_fg_color");
    reveal_strlit("destructive_bg_color");
    reveal_strlit("destructive_fg_color");
    reveal_strlit("success_bg_color");
    reveal_strlit("success_fg_color");
    assert("accent_bg_color"@.len() != "success_fg_color"@.len());
    assert("accent_fg_color"@.len() != "success_fg_color"@.len());
    assert("destructive_bg_color"@.len() != "success_fg_color"@.len());
    assert("destructive_fg_color"@.len() != "success_fg_color"@.len());
    assert("success_bg_color"@[8] != "success_fg_color"@[8]);
    reveal_with_fuel(absent_before, 6);
    lemma_absent_before(define_map(p), "success_fg_color"@, 5);
    lemma_lookup_at(define_map(p), "success_fg_color"@, 5);
    lemma_define_line_known("success_fg_color"@, rest, p, p.on_secondary);
}

proof fn lemma_define_role_warning_bg_color(p: PaletteView, rest: Seq<char>)
    requires
        text::free_of(rest, '\n'),
    ensures
        recolored_decl("warning_bg_color"@, p.tertiary) == recolor_defines_of(define_decl("warning_bg_color"@, rest), p),
{
    reveal_strlit("accent_bg_color");
    reveal_strlit("accent_fg_color");
    reveal_strlit("destructive_bg_color");
    reveal_strlit("destructive_fg_color");
    reveal_strlit("success_bg_color");
    reveal_strlit("success_fg_color");
    reveal_strlit("warning_bg_color");
    assert("accent_bg_color"@.len() != "warning_bg_color"@.len());
    assert("accent_fg_color"@.len() != "warning_bg_color"@.len());
    assert("destructive_bg_color"@.len() != "warning_bg_color"@.len());
    assert("destructive_fg_color"@.len() != "warning_bg_color"@.len());
    assert("success_bg_color"@[0] != "warning_bg_color"@[0]);
    assert("success_fg_color"@[0] != "warning_bg_color"@[0]);
    reveal_with_fuel(absent_before, 7);
    lemma_absent_before(define_map(p), "warning_bg_color"@, 6);
    lemma_lookup_at(define_map(p), "warning_bg_color"@, 6);
    lemma_define_line_known("warning_bg_color"@, rest, p, p.tertiary);
}

proof fn lemma_define_role_warning_fg_color(p: PaletteView, rest: Seq<char>)
    requires
        text::free_of(rest, '\n'),
    ensures
        recolored_decl("warning_fg_color"@, p.on_tertiary) == recolor_defines_of(define_decl("warning_fg_color"@, rest), p),
{
    reveal_strlit("accent_bg_color");
    reveal_strlit("accent_fg_color");
    reveal_strlit("destructive_bg_color");
    reveal_strlit("destructive_fg_color");
    reveal_strlit("success_bg_color");
    reveal_strlit("success_fg_color");
    reveal_strlit("warning_bg_color");
    reveal_strlit("warning_fg_color");
    assert("accent_bg_color"@.len() != "warning_fg_color"@.len());
    assert("accent_fg_color"@.len() != "warning_fg_color"@.len());
    assert("destructive_bg_color"@.len() != "warning_fg_color"@.len());
    assert("destructive_fg_color"@.len() != "warning_fg_color"@.len());
    assert("success_bg_color"@[0] != "warning_fg_color"@[0]);
    assert("success_fg_color"@[0] != "warning_fg_color"@[0]);
    assert("warning_bg_color"@[8] != "warning_fg_color"@[8]);
    reveal_with_fuel(absent_before, 8);
    lemma_absent_before(define_map(p), "warning_fg_color"@, 7);
    lemma_lookup_at(define_map(p), "warning_fg_color"@, 7);
    lemma_define_line_known("warning_fg_color"@, rest, p, p.on_tertiary);
}

proof fn lemma_define_role_error_bg_color(p: PaletteView, rest: Seq<char>)
    requires
        text::free_of(rest, '\n'),
    ensures
        recolored_decl("error_bg_color"@, p.error) == recolor_defines_of(define_decl("error_bg_color"@, rest), p),
{
    reveal_strlit("accent_bg_color");
    reveal_strlit("accent_fg_color");
    reveal_strlit("destructive_bg_color");
    reveal_strlit("destructive_fg_color");
    reveal_strlit("success_bg_color");
    reveal_strlit("success_fg_color");
    reveal_strlit("warning_bg_color");
    reveal_strlit("warning_fg_color");
    reveal_strlit("error_bg_color");
    assert("accent_bg_color"@.len() != "error_bg_color"@.len());
    assert("accent_fg_color"@.len() != "error_bg_color"@.len());
    assert("destructive_bg_color"@.len() != "error_bg_color"@.len());
    assert("destructive_fg_color"@.len() != "error_bg_color"@.len());
    assert("success_bg_color"@.len() != "error_bg_color"@.len());
    assert("success_fg_color"@.len() != "error_bg_color"@.len());
    assert("warning_bg_color"@.len() != "error_bg_color"@.len());
    assert("warning_fg_color"@.len() != "error_bg_color"@.len());
    reveal_with_fuel(absent_before, 9);
    lemma_absent_before(define_map(p), "error_bg_color"@, 8);
    lemma_lookup_at(define_map(p), "error_bg_color"@, 8);
    lemma_define_line_known("error_bg_color"@, rest, p, p.error);
}

proof fn lemma_define_role_error_fg_color(p: PaletteView, rest: Seq<char>)
    requires
        text::free_of(rest, '\n'),
    ensures
        recolored_decl("error_fg_color"@, p.on_error) == recolor_defines_of(define_decl("error_fg_color"@, rest), p),
{
    reveal_strlit("accent_bg_color");
    reveal_strlit("accent_fg_color");
    reveal_strlit("destructive_bg_color");
    reveal_strlit("destructive_fg_color");
    reveal_strlit("success_bg_color");
    reveal_strlit("success_fg_color");
    reveal_strlit("warning_bg_color");
    reveal_strlit("warning_fg_color");
    reveal_strlit("error_bg_color");
    reveal_strlit("error_fg_color");
    assert("accent_bg_color"@.len() != "error_fg_color"@.len());
    assert("accent_fg_color"@.len() != "error_fg_color"@.len());
    assert("destructive_bg_color"@.len() != "error_fg_color"@.len());
    assert("destructive_fg_color"@.len() != "error_fg_color"@.len());
    assert("success_bg_color"@.len() != "error_fg_color"@.len());
    assert("success_fg_color"@.len() != "error_fg_color"@.len());
    assert("warning_bg_color"@.len() != "error_fg_color"@.len());
    assert("warning_fg_color"@.len() != "error_fg_color"@.len());
    assert("error_bg_color"@[6] != "error_fg_color"@[6]);
    reveal_with_fuel(absent_before, 10);
    lemma_absent_before(define_map(p), "error_fg_color"@, 9);
    lemma_lookup_at(define_map(p), "error_fg_color"@, 9);
    lemma_define_line_known("error_fg_color"@, rest, p, p.on_error);
}

proof fn lemma_define_role_window_bg_color(p: PaletteView, rest: Seq<char>)
    requires
        text::free_of(rest, '\n'),
    ensures
        recolored_decl("window_bg_color"@, p.surface) == recolor_defines_of(define_decl("window_bg_color"@, rest), p),
{
    reveal_strlit("accent_bg_color");
    reveal_strlit("accent_fg_color");
    reveal_strlit("destructive_bg_color");
    reveal_strlit("destructive_fg_color");
    reveal_strlit("success_bg_color");
    reveal_strlit("success_fg_color");
    reveal_strlit("warning_bg_color");
    reveal_strlit("warning_fg_color");
    reveal_strlit("error_bg_color");
    reveal_strlit("error_fg_color");
    reveal_strlit("window_bg_color");
    assert("accent_bg_color"@[0] != "window_bg_color"@[0]);
    assert("accent_fg_color"@[0] != "window_bg_color"@[0]);
    assert("destructive_bg_color"@.len() != "window_bg_color"@.len());
    assert("destructive_fg_color"@.len() != "window_bg_color"@.len());
    assert("success_bg_color"@.len() != "window_bg_color"@.len());
    assert("success_fg_color"@.len() != "window_bg_color"@.len());
    assert("warning_bg_color"@.len() != "window_bg_color"@.len());
    assert("warning_fg_color"@.len() != "window_bg_color"@.len());
    assert("error_bg_color"@.len() != "window_bg_color"@.len());
    assert("error_fg_color"@.len() != "window_bg_color"@.len());
    reveal_with_fuel(absent_before, 11);
    lemma_absent_before(define_map(p), "window_bg_color"@, 10);
    lemma_lookup_at(define_map(p), "window_bg_color"@, 10);
    lemma_define_line_known("window_bg_color"@, rest, p, p.surface);
}

proof fn lemma_define_role_window_fg_color(p: PaletteView, rest: Seq<char>)
    requires
        text::free_of(rest, '\n'),
    ensures
        recolored_decl("window_fg_color"@, p.on_surface) == recolor_defines_of(define_decl("window_fg_color"@, rest), p),
{
    reveal_strlit("accent_bg_color");
    reveal_strlit("accent_fg_color");
    reveal_strlit("destructive_bg_color");
    reveal_strlit("destructive_fg_color");
    reveal_strlit("success_bg_color");
    reveal_strlit("success_fg_color");
    reveal_strlit("warning_bg_color");
    reveal_strlit("warning_fg_color");
    reveal_strlit("error_bg_color");
    reveal_strlit("error_fg_color");
    reveal_strlit("window_bg_color");
    reveal_strlit("window_fg_color");
    assert("accent_bg_color"@[0] != "window_fg_color"@[0]);
    assert("accent_fg_color"@[0] != "window_fg_color"@[0]);
    assert("destructive_bg_color"@.len() != "window_fg_color"@.len());
    assert("destructive_fg_color"@.len() != "window_fg_color"@.len());
    assert("success_bg_color"@.len() != "window_fg_color"@.len());
    assert("success_fg_color"@.len() != "window_fg_color"@.len());
    assert("warning_bg_color"@.len() != "window_fg_color"@.len());
    assert("warning_fg_color"@.len() != "window_fg_color"@.len());
    assert("error_bg_color"@.len() != "window_fg_color"@.len());
    assert("error_fg_color"@.len() != "window_fg_color"@.len());
    assert("window_bg_color"@[7] != "window_fg_color"@[7]);
    reveal_with_fuel(absent_before, 12);
    lemma_absent_before(define_map(p), "window_fg_color"@, 11);
    lemma_lookup_at(define_map(p), "window_fg_color"@, 11);
    lemma_define_line_known("window_fg_color"@, rest, p, p.on_surface);
}

proof fn lemma_define_role_view_bg_color(p: PaletteView, rest: Seq<char>)
    requires
        text::free_of(rest, '\n'),
    ensures
        recolored_decl("view_bg_color"@, p.surface_container_low) == recolor_defines_of(define_decl("view_bg_color"@, rest), p),
{
    reveal_strlit("accent_bg_color");
    reveal_strlit("accent_fg_color");
    reveal_strlit("destructive_bg_color");
    reveal_strlit("destructive_fg_color");
    reveal_strlit("success_bg_color");
    reveal_strlit("success_fg_color");
    reveal_strlit("warning_bg_color");
    reveal_strlit("warning_fg_color");
    reveal_strlit("error_bg_color");
    reveal_strlit("error_fg_color");
    reveal_strlit("window_bg_color");
    reveal_strlit("window_fg_color");
    reveal_strlit("view_bg_color");
    assert("accent_bg_color"@.len() != "view_bg_color"@.len());
    assert("accent_fg_color"@.len() != "view_bg_color"@.len());
    assert("destructive_bg_color"@.len() != "view_bg_color"@.len());
    assert("destructive_fg_color"@.len() != "view_bg_color"@.len());
    assert("success_bg_color"@.len() != "view_bg_color"@.len());
    assert("success_fg_color"@.len() != "view_bg_color"@.len());
    assert("warning_bg_color"@.len() != "view_bg_color"@.len());
    assert("warning_fg_color"@.len() != "view_bg_color"@.len());
    assert("error_bg_color"@.len() != "view_bg_color"@.len());
    assert("error_fg_color"@.len() != "view_bg_color"@.len());
    assert("window_bg_color"@.len() != "view_bg_color"@.len());
    assert("window_fg_color"@.len() != "view_bg_color"@.len());
    reveal_with_fuel(absent_before, 13);
    lemma_absent_before(define_map(p), "view_bg_color"@, 12);
    lemma_lookup_at(define_map(p), "view_bg_color"@, 12);
    lemma_define_line_known("view_bg_color"@, rest, p, p.surface_container_low);
}

proof fn lemma_define_role_view_fg_color(p: PaletteView, rest: Seq<char>)
    requires
        text::free_of(rest, '\n'),
    ensures
        recolored_decl("view_fg_color"@, p.on_surface) == recolor_defines_of(define_decl("view_fg_color"@, rest), p),
{
    reveal_strlit("accent_bg_color");
    reveal_strlit("accent_fg_color");
    reveal_strlit("destructive_bg_color");
    reveal_strlit("destructive_fg_color");
    reveal_strlit("success_bg_color");
    reveal_strlit("success_fg_color");
    reveal_strlit("warning_bg_color");
    reveal_strlit("warning_fg_color");
    reveal_strlit("error_bg_color");
    reveal_strlit("error_fg_color");
    reveal_strlit("window_bg_color");
    reveal_strlit("window_fg_color");
    reveal_strlit("view_bg_color");
    reveal_strlit("view_fg_color");
    assert("accent_bg_color"@.len() != "view_fg_color"@.len());
    assert("accent_fg_color"@.len() != "view_fg_color"@.len());
    assert("destructive_bg_color"@.len() != "view_fg_color"@.len());
    assert("destructive_fg_color"@.len() != "view_fg_color"@.len());
    assert("success_bg_color"@.len() != "view_fg_color"@.len());
    assert("success_fg_color"@.len() != "view_fg_color"@.len());
    assert("warning_bg_color"@.len() != "view_fg_color"@.len());
    assert("warning_fg_color"@.len() != "view_fg_color"@.len());
    assert("error_bg_color"@.len() != "view_fg_color"@.len());
    assert("error_fg_color"@.len() != "view_fg_color"@.len());
    assert("window_bg_color"@.len() != "view_fg_color"@.len());
    assert("window_fg_color"@.len() != "view_fg_color"@.len());
    assert("view_bg_color"@[5] != "view_fg_color"@[5]);
    reveal_with_fuel(absent_before, 14);
    lemma_absent_before(define_map(p), "view_fg_color"@, 13);
    lemma_lookup_at(define_map(p), "view_fg_color"@, 13);
    lemma_define_line_known("view_fg_color"@, rest, p, p.on_surface);
}

proof fn lemma_define_role_headerbar_bg_color(p: PaletteView, rest: Seq<char>)
    requires
        text::free_of(rest, '\n'),
    ensures
        recolored_decl("headerbar_bg_color"@, p.surface_container) == recolor_defines_of(define_decl("headerbar_bg_color"@, rest), p),
{
    reveal_strlit("accent_bg_color");
    reveal_strlit("accent_fg_color");
    reveal_strlit("destructive_bg_color");
    reveal_strlit("destructive_fg_color");
    reveal_strlit("success_bg_color");
    reveal_strlit("success_fg_color");
    reveal_strlit("warning_bg_color");
    reveal_strlit("warning_fg_color");
    reveal_strlit("error_bg_color");
    reveal_strlit("error_fg_color");
    reveal_strlit("window_bg_color");
    reveal_strlit("window_fg_color");
    reveal_strlit("view_bg_color");
    reveal_strlit("view_fg_color");
    reveal_strlit("headerbar_bg_color");
    assert("accent_bg_color"@.len() != "headerbar_bg_color"@.len());
    assert("accent_fg_color"@.len() != "headerbar_bg_color"@.len());
    assert("destructive_bg_color"@.len() != "headerbar_bg_color"@.len());
    assert("destructive_fg_color"@.len() != "headerbar_bg_color"@.len());
    assert("success_bg_color"@.len() != "headerbar_bg_color"@.len());
    assert("success_fg_color"@.len() != "headerbar_bg_color"@.len());
    assert("warning_bg_color"@.len() != "headerbar_bg_color"@.len());
    assert("warning_fg_color"@.len() != "headerbar_bg_color"@.len());
    assert("error_bg_color"@.len() != "headerbar_bg_color"@.len());
    assert("error_fg_color"@.len() != "headerbar_bg_color"@.len());
    assert("window_bg_color"@.len() != "headerbar_bg_color"@.len());
    assert("window_fg_color"@.len() != "headerbar_bg_color"@.len());
    assert("view_bg_color"@.len() != "headerbar_bg_color"@.len());
    assert("view_fg_color"@.len() != "headerbar_bg_color"@.len());
    reveal_with_fuel(absent_before, 15);
    lemma_absent_before(define_map(p), "headerbar_bg_color"@, 14);
    lemma_lookup_at(define_map(p), "headerbar_bg_color"@, 14);
    lemma_define_line_known("headerbar_bg_color"@, rest, p, p.surface_container);
}

proof fn lemma_define_role_headerbar_fg_color(p: PaletteView, rest: Seq<char>)
    requires
        text::free_of(rest, '\n'),
    ensures
        recolored_decl("headerbar_fg_color"@, p.on_surface) == recolor_defines_of(define_decl("headerbar_fg_color"@, rest), p),
{
    reveal_strlit("accent_bg_color");
    reveal_strlit("accent_fg_color");
    reveal_strlit("destructive_bg_color");
    reveal_strlit("destructive_fg_color");
    reveal_strlit("success_bg_color");
    reveal_strlit("success_fg_color");
    reveal_strlit("warning_bg_color");
    reveal_strlit("warning_fg_color");
    reveal_strlit("error_bg_color");
    reveal_strlit("error_fg_color");
    reveal_strlit("window_bg_color");
    reveal_strlit("window_fg_color");
    reveal_strlit("view_bg_color");
    reveal_strlit("view_fg_color");
    reveal_strlit("headerbar_bg_color");
    reveal_strlit("headerbar_fg_color");
    assert("accent_bg_color"@.len() != "headerbar_fg_color"@.len());
    assert("accent_fg_color"@.len() != "headerbar_fg_color"@.len());
    assert("destructive_bg_color"@.len() != "headerbar_fg_color"@.len());
    assert("destructive_fg_color"@.len() != "headerbar_fg_color"@.len());
    assert("success_bg_color"@.len() != "headerbar_fg_color"@.len());
    assert("success_fg_color"@.len() != "headerbar_fg_color"@.len());
    assert("warning_bg_color"@.len() != "headerbar_fg_color"@.len());
    assert("warning_fg_color"@.len() != "headerbar_fg_color"@.len());
    assert("error_bg_color"@.len() != "headerbar_fg_color"@.len());
    assert("error_fg_color"@.len() != "headerbar_fg_color"@.len());
    assert("window_bg_color"@.len() != "headerbar_fg_color"@.len());
    assert("window_fg_color"@.len() != "headerbar_fg_color"@.len());
    assert("view_bg_color"@.len() != "headerbar_fg_color"@.len());
    assert("view_fg_color"@.len() != "headerbar_fg_color"@.len());
    assert("headerbar_bg_color"@[10] != "headerbar_fg_color"@[10]);
    reveal_with_fuel(absent_before, 16);
    lemma_absent_before(define_map(p), "headerbar_fg_color"@, 15);
    lemma_lookup_at(define_map(p), "headerbar_fg_color"@, 15);
    lemma_define_line_known("headerbar_fg_color"@, rest, p, p.on_surface);
}

proof fn lemma_define_role_headerbar_backdrop_color(p: PaletteView, rest: Seq<char>)
    requires
        text::free_of(rest, '\n'),
    ensures
        recolored_decl("headerbar_backdrop_color"@, p.surface) == recolor_defines_of(define_decl("headerbar_backdrop_color"@, rest), p),
{
    reveal_strlit("accent_bg_color");
    reveal_strlit("accent_fg_color");
    reveal_strlit("destructive_bg_color");
    reveal_strlit("destructive_fg_color");
    reveal_strlit("success_bg_color");
    reveal_strlit("success_fg_color");
    reveal_strlit("warning_bg_color");
    reveal_strlit("warning_fg_color");
    reveal_strlit("error_bg_color");
    reveal_strlit("error_fg_color");
    reveal_strlit("window_bg_color");
    reveal_strlit("window_fg_color");
    reveal_strlit("view_bg_color");
    reveal_strlit("view_fg_color");
    reveal_strlit("headerbar_bg_color");
    reveal_strlit("headerbar_fg_color");
    reveal_strlit("headerbar_backdrop_color");
    assert("accent_bg_color"@.len() != "headerbar_backdrop_color"@.len());
    assert("accent_fg_color"@.len() != "headerbar_backdrop_color"@.len());
    assert("destructive_bg_color"@.len() != "headerbar_backdrop_color"@.len());
    assert("destructive_fg_color"@.len() != "headerbar_backdrop_color"@.len());
    assert("success_bg_color"@.len() != "headerbar_backdrop_color"@.len());
    assert("success_fg_color"@.len() != "headerbar_backdrop_color"@.len());
    assert("warning_bg_color"@.len() != "headerbar_backdrop_color"@.len());
    assert("warning_fg_color"@.len() != "headerbar_backdrop_color"@.len());
    assert("error_bg_color"@.len() != "headerbar_backdrop_color"@.len());
    assert("error_fg_color"@.len() != "headerbar_backdrop_color"@.len());
    assert("window_bg_color"@.len() != "headerbar_backdrop_color"@.len());
    assert("window_fg_color"@.len() != "headerbar_backdrop_color"@.len());
    assert("view_bg_color"@.len() != "headerbar_backdrop_color"@.len());
    assert("view_fg_color"@.len() != "headerbar_backdrop_color"@.len());
    assert("headerbar_bg_color"@.len() != "headerbar_backdrop_color"@.len());
    assert("headerbar_fg_color"@.len() != "headerbar_backdrop_color"@.len());
    reveal_with_fuel(absent_before, 17);
    lemma_absent_before(define_map(p), "headerbar_backdrop_color"@, 16);
    lemma_lookup_at(define_map(p), "headerbar_backdrop_color"@, 16);
    lemma_define_line_known("headerbar_backdrop_color"@, rest, p, p.surface);
}

proof fn lemma_define_role_sidebar_bg_color(p: PaletteView, rest: Seq<char>)
    requires
        text::free_of(rest, '\n'),
    ensures
        recolored_decl("sidebar_bg_color"@, p.surface_container) == recolor_defines_of(define_decl("sidebar_bg_color"@, rest), p),
{
    reveal_strlit("accent_bg_color");
    reveal_strlit("accent_fg_color");
    reveal_strlit("destructive_bg_color");
    reveal_strlit("destructive_fg_color");
    reveal_strlit("success_bg_color");
    reveal_strlit("success_fg_color");
    reveal_strlit("warning_bg_color");
    reveal_strlit("warning_fg_color");
    reveal_strlit("error_bg_color");
    reveal_strlit("error_fg_color");
    reveal_strlit("window_bg_color");
    reveal_strlit("window_fg_color");
    reveal_strlit("view_bg_color");
    reveal_strlit("view_fg_color");
    reveal_strlit("headerbar_bg_color");
    reveal_strlit("headerbar_fg_color");
    reveal_strlit("headerbar_backdrop_color");
    reveal_strlit("sidebar_bg_color");
    assert("accent_bg_color"@.len() != "sidebar_bg_color"@.len());
    assert("accent_fg_color"@.len() != "sidebar_bg_color"@.len());
    assert("destructive_bg_color"@.len() != "sidebar_bg_color"@.len());
    assert("destructive_fg_color"@.len() != "sidebar_bg_color"@.len());
    assert("success_bg_color"@[1] != "sidebar_bg_color"@[1]);
    assert("success_fg_color"@[1] != "sidebar_bg_color"@[1]);
    assert("warning_bg_color"@[0] != "sidebar_bg_color"@[0]);
    assert("warning_fg_color"@[0] != "sidebar_bg_color"@[0]);
    assert("error_bg_color"@.len() != "sidebar_bg_color"@.len());
    assert("error_fg_color"@.len() != "sidebar_bg_color"@.len());
    assert("window_bg_color"@.len() != "sidebar_bg_color"@.len());
    assert("window_fg_color"@.len() != "sidebar_bg_color"@.len());
    assert("view_bg_color"@.len() != "sidebar_bg_color"@.len());
    assert("view_fg_color"@.len() != "sidebar_bg_color"@.len());
    assert("headerbar_bg_color"@.len() != "sidebar_bg_color"@.len());
    assert("headerbar_fg_color"@.len() != "sidebar_bg_color"@.len());
    assert("headerbar_backdrop_color"@.len() != "sidebar_bg_color"@.len());
    reveal_with_fuel(absent_before, 18);
    lemma_absent_before(define_map(p), "sidebar_bg_color"@, 17);
    lemma_lookup_at(define_map(p), "sidebar_bg_color"@, 17);
    lemma_define_line_known("sidebar_bg_color"@, rest, p, p.surface_container);
}

proof fn lemma_define_role_sidebar_fg_color(p: PaletteView, rest: Seq<char>)
    requires
        text::free_of(rest, '\n'),
    ensures
        recolored_decl("sidebar_fg_color"@, p.on_surface) == recolor_defines_of(define_decl("sidebar_fg_color"@, rest), p),
{
    reveal_strlit("accent_bg_color");
    reveal_strlit("accent_fg_color");
    reveal_strlit("destructive_bg_color");
    reveal_strlit("destructive_fg_color");
    reveal_strlit("success_bg_color");
    reveal_strlit("success_fg_color");
    reveal_strlit("warning_bg_color");
    reveal_strlit("warning_fg_color");
    reveal_strlit("error_bg_color");
    reveal_strlit("error_fg_color");
    reveal_strlit("window_bg_color");
    reveal_strlit("window_fg_color");
    reveal_strlit("view_bg_color");
    reveal_strlit("view_fg_color");
    reveal_strlit("headerbar_bg_color");
    reveal_strlit("headerbar_fg_color");
    reveal_strlit("headerbar_backdrop_color");
    reveal_strlit("sidebar_bg_color");
    reveal_strlit("sidebar_fg_color");
    assert("accent_bg_color"@.len() != "sidebar_fg_color"@.len());
    assert("accent_fg_color"@.len() != "sidebar_fg_color"@.len());
    assert("destructive_bg_color"@.len() != "sidebar_fg_color"@.len());
    assert("destructive_fg_color"@.len() != "sidebar_fg_color"@.len());
    assert("success_bg_color"@[1] != "sidebar_fg_color"@[1]);
    assert("success_fg_color"@[1] != "sidebar_fg_color"@[1]);
    assert("warning_bg_color"@[0] != "sidebar_fg_color"@[0]);
    assert("warning_fg_color"@[0] != "sidebar_fg_color"@[0]);
    assert("error_bg_color"@.len() != "sidebar_fg_color"@.len());
    assert("error_fg_color"@.len() != "sidebar_fg_color"@.len());
    assert("window_bg_color"@.len() != "sidebar_fg_color"@.len());
    assert("window_fg_color"@.len() != "sidebar_fg_color"@.len());
    assert("view_bg_color"@.len() != "sidebar_fg_color"@.len());
    assert("view_fg_color"@.len() != "sidebar_fg_color"@.len());
    assert("headerbar_bg_color"@.len() != "sidebar_fg_color"@.len());
    assert("headerbar_fg_color"@.len() != "sidebar_fg_color"@.len());
    assert("headerbar_backdrop_color"@.len() != "sidebar_fg_color"@.len());
    assert("sidebar_bg_color"@[8] != "sidebar_fg_color"@[8]);
    reveal_with_fuel(absent_before, 19);
    lemma_absent_before(define_map(p), "sidebar_fg_color"@, 18);
    lemma_lookup_at(define_map(p), "sidebar_fg_color"@, 18);
    lemma_define_line_known("sidebar_fg_color"@, rest, p, p.on_surface);
}

proof fn lemma_define_role_sidebar_backdrop_color(p: PaletteView, rest: Seq<char>)
    requires
        text::free_of(rest, '\n'),
    ensures
        recolored_decl("sidebar_backdrop_color"@, p.surface) == recolor_defines_of(define_decl("sidebar_backdrop_color"@, rest), p),
{
    reveal_strlit("accent_bg_color");
    reveal_strlit("accent_fg_color");
    reveal_strlit("destructive_bg_color");
    reveal_strlit("destructive_fg_color");
    reveal_strlit("success_bg_color");
    reveal_strlit("success_fg_color");
    reveal_strlit("warning_bg_color");
    reveal_strlit("warning_fg_color");
    reveal_strlit("error_bg_color");
    reveal_strlit("error_fg_color");
    reveal_strlit("window_bg_color");
    reveal_strlit("window_fg_color");
    reveal_strlit("view_bg_color");
    reveal_strlit("view_fg_color");
    reveal_strlit("headerbar_bg_color");
    reveal_strlit("headerbar_fg_color");
    reveal_strlit("headerbar_backdrop_color");
    reveal_strlit("sidebar_bg_color");
    reveal_strlit("sidebar_fg_color");
    reveal_strlit("sidebar_backdrop_color");
    assert("accent_bg_color"@.len() != "sidebar_backdrop_color"@.len());
    assert("accent_fg_color"@.len() != "sidebar_backdrop_color"@.len());
    assert("destructive_bg_color"@.len() != "sidebar_backdrop_color"@.len());
    assert("destructive_fg_color"@.len() != "sidebar_backdrop_color"@.len());
    assert("success_bg_color"@.len() != "sidebar_backdrop_color"@.len());
    assert("success_fg_color"@.len() != "sidebar_backdrop_color"@.len());
    assert("warning_bg_color"@.len() != "sidebar_backdrop_color"@.len());
    assert("warning_fg_color"@.len() != "sidebar_backdrop_color"@.len());
    assert("error_bg_color"@.len() != "sidebar_backdrop_color"@.len());
    assert("error_fg_color"@.len() != "sidebar_backdrop_color"@.len());
    assert("window_bg_color"@.len() != "sidebar_backdrop_color"@.len());
    assert("window_fg_color"@.len() != "sidebar_backdrop_color"@.len());
    assert("view_bg_color"@.len() != "sidebar_backdrop_color"@.len());
    assert("view_fg_color"@.len() != "sidebar_backdrop_color"@.len());
    assert("headerbar_bg_color"@.len() != "sidebar_backdrop_color"@.len());
    assert("headerbar_fg_color"@.len() != "sidebar_backdrop_color"@.len());
    assert("headerbar_backdrop_color"@.len() != "sidebar_backdrop_color"@.len());
    assert("sidebar_bg_color"@.len() != "sidebar_backdrop_color"@.len());
    assert("sidebar_fg_color"@.len() != "sidebar_backdrop_color"@.len());
    reveal_with_fuel(absent_before, 20);
    lemma_absent_before(define_map(p), "sidebar_backdrop_color"@, 19);
    lemma_lookup_at(define_map(p), "sidebar_backdrop_color"@, 19);
    lemma_define_line_known("sidebar_backdrop_color"@, rest, p, p.surface);
}

proof fn lemma_define_role_secondary_sidebar_bg_color(p: PaletteView, rest: Seq<char>)
    requires
        text::free_of(rest, '\n'),
    ensures
        recolored_decl("secondary_sidebar_bg_color"@, p.surface_container) == recolor_defines_of(define_decl("secondary_sidebar_bg_color"@, rest), p),
{
    reveal_strlit("accent_bg_color");
    reveal_strlit("accent_fg_color");
    reveal_strlit("destructive_bg_color");
    reveal_strlit("destructive_fg_color");
    reveal_strlit("success_bg_color");
    reveal_strlit("success_fg_color");
    reveal_strlit("warning_bg_color");
    reveal_strlit("warning_fg_color");
    reveal_strlit("error_bg_color");
    reveal_strlit("error_fg_color");
    reveal_strlit("window_bg_color");
    reveal_strlit("window_fg_color");
    reveal_strlit("view_bg_color");
    reveal_strlit("view_fg_color");
    reveal_strlit("headerbar_bg_color");
    reveal_strlit("headerbar_fg_color");
    reveal_strlit("headerbar_backdrop_color");
    reveal_strlit("sidebar_bg_color");
    reveal_strlit("sidebar_fg_color");
    reveal_strlit("sidebar_backdrop_color");
    reveal_strlit("secondary_sidebar_bg_color");
    assert("accent_bg_color"@.len() != "secondary_sidebar_bg_color"@.len());
    assert("accent_fg_color"@.len() != "secondary_sidebar_bg_color"@.len());
    assert("destructive_bg_color"@.len() != "secondary_sidebar_bg_color"@.len());
    assert("destructive_fg_color"@.len() != "secondary_sidebar_bg_color"@.len());
    assert("success_bg_color"@.len() != "secondary_sidebar_bg_color"@.len());
    assert("success_fg_color"@.len() != "secondary_sidebar_bg_color"@.len());
    assert("warning_bg_color"@.len() != "secondary_sidebar_bg_color"@.len());
    assert("warning_fg_color"@.len() != "secondary_sidebar_bg_color"@.len());
    assert("error_bg_color"@.len() != "secondary_sidebar_bg_color"@.len());
    assert("error_fg_color"@.len() != "secondary_sidebar_bg_color"@.len());
    assert("window_bg_color"@.len() != "secondary_sidebar_bg_color"@.len());
    assert("window_fg_color"@.len() != "secondary_sidebar_bg_color"@.len());
    assert("view_bg_color"@.len() != "secondary_sidebar_bg_color"@.len());
    assert("view_fg_color"@.len() != "secondary_sidebar_bg_color"@.len());
    assert("headerbar_bg_color"@.len() != "secondary_sidebar_bg_color"@.len());
    assert("headerbar_fg_color"@.len() != "secondary_sidebar_bg_color"@.len());
    assert("headerbar_backdrop_color"@.len() != "secondary_sidebar_bg_color"@.len());
    assert("sidebar_bg_color"@.len() != "secondary_sidebar_bg_color"@.len());
    assert("sidebar_fg_color"@.len() != "secondary_sidebar_bg_color"@.len());
    assert("sidebar_backdrop_color"@.len() != "secondary_sidebar_bg_color"@.len());
    reveal_with_fuel(absent_before, 21);
    lemma_absent_before(define_map(p), "secondary_sidebar_bg_color"@, 20);
    lemma_lookup_at(define_map(p), "secondary_sidebar_bg_color"@, 20);
    lemma_define_line_known("secondary_sidebar_bg_color"@, rest, p, p.surface_container);
}

proof fn lemma_define_role_secondary_sidebar_fg_color(p: PaletteView, rest: Seq<char>)
    requires
        text::free_of(rest, '\n'),
    ensures
        recolored_decl("secondary_sidebar_fg_color"@, p.on_surface) == recolor_defines_of(define_decl("secondary_sidebar_fg_color"@, rest), p),
{
    reveal_strlit("accent_bg_color");
    reveal_strlit("accent_fg_color");
    reveal_strlit("destructive_bg_color");
    reveal_strlit("destructive_fg_color");
    reveal_strlit("success_bg_color");
    reveal_strlit("success_fg_color");
    reveal_strlit("warning_bg_color");
    reveal_strlit("warning_fg_color");
    reveal_strlit("error_bg_color");
    reveal_strlit("error_fg_color");
    reveal_strlit("window_bg_color");
    reveal_strlit("window_fg_color");
    reveal_strlit("view_bg_color");
    reveal_strlit("view_fg_color");
    reveal_strlit("headerbar_bg_color");
    reveal_strlit("headerbar_fg_color");
    reveal_strlit("headerbar_backdrop_color");
    reveal_strlit("sidebar_bg_color");
    reveal_strlit("sidebar_fg_color");
    reveal_strlit("sidebar_backdrop_color");
    reveal_strlit("secondary_sidebar_bg_color");
    reveal_strlit("secondary_sidebar_fg_color");
    assert("accent_bg_color"@.len() != "secondary_sidebar_fg_color"@.len());
    assert("accent_fg_color"@.len() != "secondary_sidebar_fg_color"@.len());
    assert("destructive_bg_color"@.len() != "secondary_sidebar_fg_color"@.len());
    assert("destructive_fg_color"@.len() != "secondary_sidebar_fg_color"@.len());
    assert("success_bg_color"@.len() != "secondary_sidebar_fg_color"@.len());
    assert("success_fg_color"@.len() != "secondary_sidebar_fg_color"@.len());
    assert("warning_bg_color"@.len() != "secondary_sidebar_fg_color"@.len());
    assert("warning_fg_color"@.len() != "secondary_sidebar_fg_color"@.len());
    assert("error_bg_color"@.len() != "secondary_sidebar_fg_color"@.len());
    assert("error_fg_color"@.len() != "secondary_sidebar_fg_color"@.len());
    assert("window_bg_color"@.len() != "secondary_sidebar_fg_color"@.len());
    assert("window_fg_color"@.len() != "secondary_sidebar_fg_color"@.len());
    assert("view_bg_color"@.len() != "secondary_sidebar_fg_color"@.len());
    assert("view_fg_color"@.len() != "secondary_sidebar_fg_color"@.len());
    assert("headerbar_bg_color"@.len() != "secondary_sidebar_fg_color"@.len());
    assert("headerbar_fg_color"@.len() != "secondary_sidebar_fg_color"@.len());
    assert("headerbar_backdrop_color"@.len() != "secondary_sidebar_fg_color"@.len());
    assert("sidebar_bg_color"@.len() != "secondary_sidebar_fg_color"@.len());
    assert("sidebar_fg_color"@.len() != "secondary_sidebar_fg_color"@.len());
    assert("sidebar_backdrop_color"@.len() != "secondary_sidebar_fg_color"@.len());
    assert("secondary_sidebar_bg_color"@[18] != "secondary_sidebar_fg_color"@[18]);
    reveal_with_fuel(absent_before, 22);
    lemma_absent_before(define_map(p), "secondary_sidebar_fg_color"@, 21);
    lemma_lookup_at(define_map(p), "secondary_sidebar_fg_color"@, 21);
    lemma_define_line_known("secondary_sidebar_fg_color"@, rest, p, p.on_surface);
}

proof fn lemma_define_role_secondary_sidebar_backdrop_color(p: PaletteView, rest: Seq<char>)
    requires
        text::free_of(rest, '\n'),
    ensures
        recolored_decl("secondary_sidebar_backdrop_color"@, p.surface) == recolor_defines_of(define_decl("secondary_sidebar_backdrop_color"@, rest), p),
{
    reveal_strlit("accent_bg_color");
    reveal_strlit("accent_fg_color");
    reveal_strlit("destructive_bg_color");
    reveal_strlit("destructive_fg_color");
    reveal_strlit("success_bg_color");
    reveal_strlit("success_fg_color");
    reveal_strlit("warning_bg_color");
    reveal_strlit("warning_fg_color");
    reveal_strlit("error_bg_color");
    reveal_strlit("error_fg_color");
    reveal_strlit("window_bg_color");
    reveal_strlit("window_fg_color");
    reveal_strlit("view_bg_color");
    reveal_strlit("view_fg_color");
    reveal_strlit("headerbar_bg_color");
    reveal_strlit("headerbar_fg_color");
    reveal_strlit("headerbar_backdrop_color");
    reveal_strlit("sidebar_bg_color");
    reveal_strlit("sidebar_fg_color");
    reveal_strlit("sidebar_backdrop_color");
    reveal_strlit("secondary_sidebar_bg_color");
    reveal_strlit("secondary_sidebar_fg_color");
    reveal_strlit("secondary_sidebar_backdrop_color");
    assert("accent_bg_color"@.len() != "secondary_sidebar_backdrop_color"@.len());
    assert("accent_fg_color"@.len() != "secondary_sidebar_backdrop_color"@.len());
    assert("destructive_bg_color"@.len() != "secondary_sidebar_backdrop_color"@.len());
    assert("destructive_fg_color"@.len() != "secondary_sidebar_backdrop_color"@.len());
    assert("success_bg_color"@.len() != "secondary_sidebar_backdrop_color"@.len());
    assert("success_fg_color"@.len() != "secondary_sidebar_backdrop_color"@.len());
    assert("warning_bg_color"@.len() != "secondary_sidebar_backdrop_color"@.len());
    assert("warning_fg_color"@.len() != "secondary_sidebar_backdrop_color"@.len());
    assert("error_bg_color"@.len() != "secondary_sidebar_backdrop_color"@.len());
    assert("error_fg_color"@.len() != "secondary_sidebar_backdrop_color"@.len());
    assert("window_bg_color"@.len() != "secondary_sidebar_backdrop_color"@.len());
    assert("window_fg_color"@.len() != "secondary_sidebar_backdrop_color"@.len());
    assert("view_bg_color"@.len() != "secondary_sidebar_backdrop_color"@.len());
    assert("view_fg_color"@.len() != "secondary_sidebar_backdrop_color"@.len());
    assert("headerbar_bg_color"@.len() != "secondary_sidebar_backdrop_color"@.len());
    assert("headerbar_fg_color"@.len() != "secondary_sidebar_backdrop_color"@.len());
    assert("headerbar_backdrop_color"@.len() != "secondary_sidebar_backdrop_color"@.len());
    assert("sidebar_bg_color"@.len() != "secondary_sidebar_backdrop_color"@.len());
    assert("sidebar_fg_color"@.len() != "secondary_sidebar_backdrop_color"@.len());
    assert("sidebar_backdrop_color"@.len() != "secondary_sidebar_backdrop_color"@.len());
    assert("secondary_sidebar_bg_color"@.len() != "secondary_sidebar_backdrop_color"@.len());
    assert("secondary_sidebar_fg_color"@.len() != "secondary_sidebar_backdrop_color"@.len());
    reveal_with_fuel(absent_before, 23);
    lemma_absent_before(define_map(p), "secondary_sidebar_backdrop_color"@, 22);
    lemma_lookup_at(define_map(p), "secondary_sidebar_backdrop_color"@, 22);
    lemma_define_line_known("secondary_sidebar_backdrop_color"@, rest, p, p.surface);
}

proof fn lemma_define_role_card_bg_color(p: PaletteView, rest: Seq<char>)
    requires
        text::free_of(rest, '\n'),
    ensures
        recolored_decl("card_bg_color"@, p.surface_container_high) == recolor_defines_of(define_decl("card_bg_color"@, rest), p),
{
    reveal_strlit("accent_bg_color");
    reveal_strlit("accent_fg_color");
    reveal_strlit("destructive_bg_color");
    reveal_strlit("destructive_fg_color");
    reveal_strlit("success_bg_color");
    reveal_strlit("success_fg_color");
    reveal_strlit("warning_bg_color");
    reveal_strlit("warning_fg_color");
    reveal_strlit("error_bg_color");
    reveal_strlit("error_fg_color");
    reveal_strlit("window_bg_color");
    reveal_strlit("window_fg_color");
    reveal_strlit("view_bg_color");
    reveal_strlit("view_fg_color");
    reveal_strlit("headerbar_bg_color");
    reveal_strlit("headerbar_fg_color");
    reveal_strlit("headerbar_backdrop_color");
    reveal_strlit("sidebar_bg_color");
    reveal_strlit("sidebar_fg_color");
    reveal_strlit("sidebar_backdrop_color");
    reveal_strlit("secondary_sidebar_bg_color");
    reveal_strlit("secondary_sidebar_fg_color");
    reveal_strlit("secondary_sidebar_backdrop_color");
    reveal_strlit("card_bg_color");
    assert("accent_bg_color"@.len() != "card_bg_color"@.len());
    assert("accent_fg_color"@.len() != "card_bg_color"@.len());
    assert("destructive_bg_color"@.len() != "card_bg_color"@.len());
    assert("destructive_fg_color"@.len() != "card_bg_color"@.len());
    assert("success_bg_color"@.len() != "card_bg_color"@.len());
    assert("success_fg_color"@.len() != "card_bg_color"@.len());
    assert("warning_bg_color"@.len() != "card_bg_color"@.len());
    assert("warning_fg_color"@.len() != "card_bg_color"@.len());
    assert("error_bg_color"@.len() != "card_bg_color"@.len());
    assert("error_fg_color"@.len() != "card_bg_color"@.len());
    assert("window_bg_color"@.len() != "card_bg_color"@.len());
    assert("window_fg_color"@.len() != "card_bg_color"@.len());
    assert("view_bg_color"@[0] != "card_bg_color"@[0]);
    assert("view_fg_color"@[0] != "card_bg_color"@[0]);
    assert("headerbar_bg_color"@.len() != "card_bg_color"@.len());
    assert("headerbar_fg_color"@.len() != "card_bg_color"@.len());
    assert("headerbar_backdrop_color"@.len() != "card_bg_color"@.len());
    assert("sidebar_bg_color"@.len() != "card_bg_color"@.len());
    assert("sidebar_fg_color"@.len() != "card_bg_color"@.len());
    assert("sidebar_backdrop_color"@.len() != "card_bg_color"@.len());
    assert("secondary_sidebar_bg_color"@.len() != "card_bg_color"@.len());
    assert("secondary_sidebar_fg_color"@.len() != "card_bg_color"@.len());
    assert("secondary_sidebar_backdrop_color"@.len() != "card_bg_color"@.len());
    reveal_with_fuel(absent_before, 24);
    lemma_absent_before(define_map(p), "card_bg_color"@, 23);
    lemma_lookup_at(define_map(p), "card_bg_color"@, 23);
    lemma_define_line_known("card_bg_color"@, rest, p, p.surface_container_high);
}

proof fn lemma_define_role_card_fg_color(p: PaletteView, rest: Seq<char>)
    requires
        text::free_of(rest, '\n'),
    ensures
        recolored_decl("card_fg_color"@, p.on_surface) == recolor_defines_of(define_decl("card_fg_color"@, rest), p),
{
    reveal_strlit("accent_bg_color");
    reveal_strlit("accent_fg_color");
    reveal_strlit("destructive_bg_color");
    reveal_strlit("destructive_fg_color");
    reveal_strlit("success_bg_color");
    reveal_strlit("success_fg_color");
    reveal_strlit("warning_bg_color");
    reveal_strlit("warning_fg_color");
    reveal_strlit("error_bg_color");
    reveal_strlit("error_fg_color");
    reveal_strlit("window_bg_color");
    reveal_strlit("window_fg_color");
    reveal_strlit("view_bg_color");
    reveal_strlit("view_fg_color");
    reveal_strlit("headerbar_bg_color");
    reveal_strlit("headerbar_fg_color");
    reveal_strlit("headerbar_backdrop_color");
    reveal_strlit("sidebar_bg_color");
    reveal_strlit("sidebar_fg_color");
    reveal_strlit("sidebar_backdrop_color");
    reveal_strlit("secondary_sidebar_bg_color");
    reveal_strlit("secondary_sidebar_fg_color");
    reveal_strlit("secondary_sidebar_backdrop_color");
    reveal_strlit("card_bg_color");
    reveal_strlit("card_fg_color");
    assert("accent_bg_color"@.len() != "card_fg_color"@.len());
    assert("accent_fg_color"@.len() != "card_fg_color"@.len());
    assert("destructive_bg_color"@.len() != "card_fg_color"@.len());
    assert("destructive_fg_color"@.len() != "card_fg_color"@.len());
    assert("success_bg_color"@.len() != "card_fg_color"@.len());
    assert("success_fg_color"@.len() != "card_fg_color"@.len());
    assert("warning_bg_color"@.len() != "card_fg_color"@.len());
    assert("warning_fg_color"@.len() != "card_fg_color"@.len());
    assert("error_bg_color"@.len() != "card_fg_color"@.len());
    assert("error_fg_color"@.len() != "card_fg_color"@.len());
    assert("window_bg_color"@.len() != "card_fg_color"@.len());
    assert("window_fg_color"@.len() != "card_fg_color"@.len());
    assert("view_bg_color"@[0] != "card_fg_color"@[0]);
    assert("view_fg_color"@[0] != "card_fg_color"@[0]);
    assert("headerbar_bg_color"@.len() != "card_fg_color"@.len());
    assert("headerbar_fg_color"@.len() != "card_fg_color"@.len());
    assert("headerbar_backdrop_color"@.len() != "card_fg_color"@.len());
    assert("sidebar_bg_color"@.len() != "card_fg_color"@.len());
    assert("sidebar_fg_color"@.len() != "card_fg_color"@.len());
    assert("sidebar_backdrop_color"@.len() != "card_fg_color"@.len());
    assert("secondary_sidebar_bg_color"@.len() != "card_fg_color"@.len());
    assert("secondary_sidebar_fg_color"@.len() != "card_fg_color"@.len());
    assert("secondary_sidebar_backdrop_color"@.len() != "card_fg_color"@.len());
    assert("card_bg_color"@[5] != "card_fg_color"@[5]);
    reveal_with_fuel(absent_before, 25);
    lemma_absent_before(define_map(p), "card_fg_color"@, 24);
    lemma_lookup_at(define_map(p), "card_fg_color"@, 24);
    lemma_define_line_known("card_fg_color"@, rest, p, p.on_surface);
}

proof fn lemma_define_role_dialog_bg_color(p: PaletteView, rest: Seq<char>)
    requires
        text::free_of(rest, '\n'),
    ensures
        recolored_decl("dialog_bg_color"@, p.surface_container_high) == recolor_defines_of(define_decl("dialog_bg_color"@, rest), p),
{
    reveal_strlit("accent_bg_color");
    reveal_strlit("accent_fg_color");
    reveal_strlit("destructive_bg_color");
    reveal_strlit("destructive_fg_color");
    reveal_strlit("success_bg_color");
    reveal_strlit("success_fg_color");
    reveal_strlit("warning_bg_color");
    reveal_strlit("warning_fg_color");
    reveal_strlit("error_bg_color");
    reveal_strlit("error_fg_color");
    reveal_strlit("window_bg_color");
    reveal_strlit("window_fg_color");
    reveal_strlit("view_bg_color");
    reveal_strlit("view_fg_color");
    reveal_strlit("headerbar_bg_color");
    reveal_strlit("headerbar_fg_color");
    reveal_strlit("headerbar_backdrop_color");
    reveal_strlit("sidebar_bg_color");
    reveal_strlit("sidebar_fg_color");
    reveal_strlit("sidebar_backdrop_color");
    reveal_strlit("secondary_sidebar_bg_color");
    reveal_strlit("secondary_sidebar_fg_color");
    reveal_strlit("secondary_sidebar_backdrop_color");
    reveal_strlit("card_bg_color");
    reveal_strlit("card_fg_color");
    reveal_strlit("dialog_bg_color");
    assert("accent_bg_color"@[0] != "dialog_bg_color"@[0]);
    assert("accent_fg_color"@[0] != "dialog_bg_color"@[0]);
    assert("destructive_bg_color"@.len() != "dialog_bg_color"@.len());
    assert("destructive_fg_color"@.len() != "dialog_bg_color"@.len());
    assert("success_bg_color"@.len() != "dialog_bg_color"@.len());
    assert("success_fg_color"@.len() != "dialog_bg_color"@.len());
    assert("warning_bg_color"@.len() != "dialog_bg_color"@.len());
    assert("warning_fg_color"@.len() != "dialog_bg_color"@.len());
    assert("error_bg_color"@.len() != "dialog_bg_color"@.len());
    assert("error_fg_color"@.len() != "dialog_bg_color"@.len());
    assert("window_bg_color"@[0] != "dialog_bg_color"@[0]);
    assert("window_fg_color"@[0] != "dialog_bg_color"@[0]);
    assert("view_bg_color"@.len() != "dialog_bg_color"@.len());
    assert("view_fg_color"@.len() != "dialog_bg_color"@.len());
    assert("headerbar_bg_color"@.len() != "dialog_bg_color"@.len());
    assert("headerbar_fg_color"@.len() != "dialog_bg_color"@.len());
    assert("headerbar_backdrop_color"@.len() != "dialog_bg_color"@.len());
    assert("sidebar_bg_color"@.len() != "dialog_bg_color"@.len());
    assert("sidebar_fg_color"@.len() != "dialog_bg_color"@.len());
    assert("sidebar_backdrop_color"@.len() != "dialog_bg_color"@.len());
    assert("secondary_sidebar_bg_color"@.len() != "dialog_bg_color"@.len());
    assert("secondary_sidebar_fg_color"@.len() != "dialog_bg_color"@.len());
    assert("secondary_sidebar_backdrop_color"@.len() != "dialog_bg_color"@.len());
    assert("card_bg_color"@.len() != "dialog_bg_color"@.len());
    assert("card_fg_color"@.len() != "dialog_bg_color"@.len());
    reveal_with_fuel(absent_before, 26);
    lemma_absent_before(define_map(p), "dialog_bg_color"@, 25);
    lemma_lookup_at(define_map(p), "dialog_bg_color"@, 25);
    lemma_define_line_known("dialog_bg_color"@, rest, p, p.surface_container_high);
}

proof fn lemma_define_role_dialog_fg_color(p: PaletteView, rest: Seq<char>)
    requires
        text::free_of(rest, '\n'),
    ensures
        recolored_decl("dialog_fg_color"@, p.on_surface) == recolor_defines_of(define_decl("dialog_fg_color"@, rest), p),
{
    reveal_strlit("accent_bg_color");
    reveal_strlit("accent_fg_color");
    reveal_strlit("destructive_bg_color");
    reveal_strlit("destructive_fg_color");
    reveal_strlit("success_bg_color");
    reveal_strlit("success_fg_color");
    reveal_strlit("warning_bg_color");
    reveal_strlit("warning_fg_color");
    reveal_strlit("error_bg_color");
    reveal_strlit("error_fg_color");
    reveal_strlit("window_bg_color");
    reveal_strlit("window_fg_color");
    reveal_strlit("view_bg_color");
    reveal_strlit("view_fg_color");
    reveal_strlit("headerbar_bg_color");
    reveal_strlit("headerbar_fg_color");
    reveal_strlit("headerbar_backdrop_color");
    reveal_strlit("sidebar_bg_color");
    reveal_strlit("sidebar_fg_color");
    reveal_strlit("sidebar_backdrop_color");
    reveal_strlit("secondary_sidebar_bg_color");
    reveal_strlit("secondary_sidebar_fg_color");
    reveal_strlit("secondary_sidebar_backdrop_color");
    reveal_strlit("card_bg_color");
    reveal_strlit("card_fg_color");
    reveal_strlit("dialog_bg_color");
    reveal_strlit("dialog_fg_color");
    assert("accent_bg_color"@[0] != "dialog_fg_color"@[0]);
    assert("accent_fg_color"@[0] != "dialog_fg_color"@[0]);
    assert("destructive_bg_color"@.len() != "dialog_fg_color"@.len());
    assert("destructive_fg_color"@.len() != "dialog_fg_color"@.len());
    assert("success_bg_color"@.len() != "dialog_fg_color"@.len());
    assert("success_fg_color"@.len() != "dialog_fg_color"@.len());
    assert("warning_bg_color"@.len() != "dialog_fg_color"@.len());
    assert("warning_fg_color"@.len() != "dialog_fg_color"@.len());
    assert("error_bg_color"@.len() != "dialog_fg_color"@.len());
    assert("error_fg_color"@.len() != "dialog_fg_color"@.len());
    assert("window_bg_color"@[0] != "dialog_fg_color"@[0]);
    assert("window_fg_color"@[0] != "dialog_fg_color"@[0]);
    assert("view_bg_color"@.len() != "dialog_fg_color"@.len());
    assert("view_fg_color"@.len() != "dialog_fg_color"@.len());
    assert("headerbar_bg_color"@.len() != "dialog_fg_color"@.len());
    assert("headerbar_fg_color"@.len() != "dialog_fg_color"@.len());
    assert("headerbar_backdrop_color"@.len() != "dialog_fg_color"@.len());
    assert("sidebar_bg_color"@.len() != "dialog_fg_color"@.len());
    assert("sidebar_fg_color"@.len() != "dialog_fg_color"@.len());
    assert("sidebar_backdrop_color"@.len() != "dialog_fg_color"@.len());
    assert("secondary_sidebar_bg_color"@.len() != "dialog_fg_color"@.len());
    assert("secondary_sidebar_fg_color"@.len() != "dialog_fg_color"@.len());
    assert("secondary_sidebar_backdrop_color"@.len() != "dialog_fg_color"@.len());
    assert("card_bg_color"@.len() != "dialog_fg_color"@.len());
    assert("card_fg_color"@.len() != "dialog_fg_color"@.len());
    assert("dialog_bg_color"@[7] != "dialog_fg_color"@[7]);
    reveal_with_fuel(absent_before, 27);
    lemma_absent_before(define_map(p), "dialog_fg_color"@, 26);
    lemma_lookup_at(define_map(p), "dialog_fg_color"@, 26);
    lemma_define_line_known("dialog_fg_color"@, rest, p, p.on_surface);
}

proof fn lemma_define_role_popover_bg_color(p: PaletteView, rest: Seq<char>)
    requires
        text::free_of(rest, '\n'),
    ensures
        recolored_decl("popover_bg_color"@, p.surface_container_high) == recolor_defines_of(define_decl("popover_bg_color"@, rest), p),
{
    reveal_strlit("accent_bg_color");
    reveal_strlit("accent_fg_color");
    reveal_strlit("destructive_bg_color");
    reveal_strlit("destructive_fg_color");
    reveal_strlit("success_bg_color");
    reveal_strlit("success_fg_color");
    reveal_strlit("warning_bg_color");
    reveal_strlit("warning_fg_color");
    reveal_strlit("error_bg_color");
    reveal_strlit("error_fg_color");
    reveal_strlit("window_bg_color");
    reveal_strlit("window_fg_color");
    reveal_strlit("view_bg_color");
    reveal_strlit("view_fg_color");
    reveal_strlit("headerbar_bg_color");
    reveal_strlit("headerbar_fg_color");
    reveal_strlit("headerbar_backdrop_color");
    reveal_strlit("sidebar_bg_color");
    reveal_strlit("sidebar_fg_color");
    reveal_strlit("sidebar_backdrop_color");
    reveal_strlit("secondary_sidebar_bg_color");
    reveal_strlit("secondary_sidebar_fg_color");
    reveal_strlit("secondary_sidebar_backdrop_color");
    reveal_strlit("card_bg_color");
    reveal_strlit("card_fg_color");
    reveal_strlit("dialog_bg_color");
    reveal_strlit("dialog_fg_color");
    reveal_strlit("popover_bg_color");
    assert("accent_bg_color"@.len() != "popover_bg_color"@.len());
    assert("accent_fg_color"@.len() != "popover_bg_color"@.len());
    assert("destructive_bg_color"@.len() != "popover_bg_color"@.len());
    assert("destructive_fg_color"@.len() != "popover_bg_color"@.len());
    assert("success_bg_color"@[0] != "popover_bg_color"@[0]);
    assert("success_fg_color"@[0] != "popover_bg_color"@[0]);
    assert("warning_bg_color"@[0] != "popover_bg_color"@[0]);
    assert("warning_fg_color"@[0] != "popover_bg_color"@[0]);
    assert("error_bg_color"@.len() != "popover_bg_color"@.len());
    assert("error_fg_color"@.len() != "popover_bg_color"@.len());
    assert("window_bg_color"@.len() != "popover_bg_color"@.len());
    assert("window_fg_color"@.len() != "popover_bg_color"@.len());
    assert("view_bg_color"@.len() != "popover_bg_color"@.len());
    assert("view_fg_color"@.len() != "popover_bg_color"@.len());
    assert("headerbar_bg_color"@.len() != "popover_bg_color"@.len());
    assert("headerbar_fg_color"@.len() != "popover_bg_color"@.len());
    assert("headerbar_backdrop_color"@.len() != "popover_bg_color"@.len());
    assert("sidebar_bg_color"@[0] != "popover_bg_color"@[0]);
    assert("sidebar_fg_color"@[0] != "popover_bg_color"@[0]);
    assert("sidebar_backdrop_color"@.len() != "popover_bg_color"@.len());
    assert("secondary_sidebar_bg_color"@.len() != "popover_bg_color"@.len());
    assert("secondary_sidebar_fg_color"@.len() != "popover_bg_color"@.len());
    assert("secondary_sidebar_backdrop_color"@.len() != "popover_bg_color"@.len());
    assert("card_bg_color"@.len() != "popover_bg_color"@.len());
    assert("card_fg_color"@.len() != "popover_bg_color"@.len());
    assert("dialog_bg_color"@.len() != "popover_bg_color"@.len());
    assert("dialog_fg_color"@.len() != "popover_bg_color"@.len());
    reveal_with_fuel(absent_before, 28);
    lemma_absent_before(define_map(p), "popover_bg_color"@, 27);
    lemma_lookup_at(define_map(p), "popover_bg_color"@, 27);
    lemma_define_line_known("popover_bg_color"@, rest, p, p.surface_container_high);
}

proof fn lemma_define_role_popover_fg_color(p: PaletteView, rest: Seq<char>)
    requires
        text::free_of(rest, '\n'),
    ensures
        recolored_decl("popover_fg_color"@, p.on_surface) == recolor_defines_of(define_decl("popover_fg_color"@, rest), p),
{
    reveal_strlit("accent_bg_color");
    reveal_strlit("accent_fg_color");
    reveal_strlit("destructive_bg_color");
    reveal_strlit("destructive_fg_color");
    reveal_strlit("success_bg_color");
    reveal_strlit("success_fg_color");
    reveal_strlit("warning_bg_color");
    reveal_strlit("warning_fg_color");
    reveal_strlit("error_bg_color");
    reveal_strlit("error_fg_color");
    reveal_strlit("window_bg_color");
    reveal_strlit("window_fg_color");
    reveal_strlit("view_bg_color");
    reveal_strlit("view_fg_color");
    reveal_strlit("headerbar_bg_color");
    reveal_strlit("headerbar_fg_color");
    reveal_strlit("headerbar_backdrop_color");
    reveal_strlit("sidebar_bg_color");
    reveal_strlit("sidebar_fg_color");
    reveal_strlit("sidebar_backdrop_color");
    reveal_strlit("secondary_sidebar_bg_color");
    reveal_strlit("secondary_sidebar_fg_color");
    reveal_strlit("secondary_sidebar_backdrop_color");
    reveal_strlit("card_bg_color");
    reveal_strlit("card_fg_color");
    reveal_strlit("dialog_bg_color");
    reveal_strlit("dialog_fg_color");
    reveal_strlit("popover_bg_color");
    reveal_strlit("popover_fg_color");
    assert("accent_bg_color"@.len() != "popover_fg_color"@.len());
    assert("accent_fg_color"@.len() != "popover_fg_color"@.len());
    assert("destructive_bg_color"@.len() != "popover_fg_color"@.len());
    assert("destructive_fg_color"@.len() != "popover_fg_color"@.len());
    assert("success_bg_color"@[0] != "popover_fg_color"@[0]);
    assert("success_fg_color"@[0] != "popover_fg_color"@[0]);
    assert("warning_bg_color"@[0] != "popover_fg_color"@[0]);
    assert("warning_fg_color"@[0] != "popover_fg_color"@[0]);
    assert("error_bg_color"@.len() != "popover_fg_color"@.len());
    assert("error_fg_color"@.len() != "popover_fg_color"@.len());
    assert("window_bg_color"@.len() != "popover_fg_color"@.len());
    assert("window_fg_color"@.len() != "popover_fg_color"@.len());
    assert("view_bg_color"@.len() != "popover_fg_color"@.len());
    assert("view_fg_color"@.len() != "popover_fg_color"@.len());
    assert("headerbar_bg_color"@.len() != "popover_fg_color"@.len());
    assert("headerbar_fg_color"@.len() != "popover_fg_color"@.len());
    assert("headerbar_backdrop_color"@.len() != "popover_fg_color"@.len());
    assert("sidebar_bg_color"@[0] != "popover_fg_color"@[0]);
    assert("sidebar_fg_color"@[0] != "popover_fg_color"@[0]);
    assert("sidebar_backdrop_color"@.len() != "popover_fg_color"@.len());
    assert("secondary_sidebar_bg_color"@.len() != "popover_fg_color"@.len());
    assert("secondary_sidebar_fg_color"@.len() != "popover_fg_color"@.len());
    assert("secondary_sidebar_backdrop_color"@.len() != "popover_fg_color"@.len());
    assert("card_bg_color"@.len() != "popover_fg_color"@.len());
    assert("card_fg_color"@.len() != "popover_fg_color"@.len());
    assert("dialog_bg_color"@.len() != "popover_fg_color"@.len());
    assert("dialog_fg_color"@.len() != "popover_fg_color"@.len());
    assert("popover_bg_color"@[8] != "popover_fg_color"@[8]);
    reveal_with_fuel(absent_before, 29);
    lemma_absent_before(define_map(p), "popover_fg_color"@, 28);
    lemma_lookup_at(define_map(p), "popover_fg_color"@, 28);
    lemma_define_line_known("popover_fg_color"@, rest, p, p.on_surface);
}

proof fn lemma_define_role_thumbnail_bg_color(p: PaletteView, rest: Seq<char>)
    requires
        text::free_of(rest, '\n'),
    ensures
        recolored_decl("thumbnail_bg_color"@, p.surface_container_high) == recolor_defines_of(define_decl("thumbnail_bg_color"@, rest), p),
{
    reveal_strlit("accent_bg_color");
    reveal_strlit("accent_fg_color");
    reveal_strlit("destructive_bg_color");
    reveal_strlit("destructive_fg_color");
    reveal_strlit("success_bg_color");
    reveal_strlit("success_fg_color");
    reveal_strlit("warning_bg_color");
    reveal_strlit("warning_fg_color");
    reveal_strlit("error_bg_color");
    reveal_strlit("error_fg_color");
    reveal_strlit("window_bg_color");
    reveal_strlit("window_fg_color");
    reveal_strlit("view_bg_color");
    reveal_strlit("view_fg_color");
    reveal_strlit("headerbar_bg_color");
    reveal_strlit("headerbar_fg_color");
    reveal_strlit("headerbar_backdrop_color");
    reveal_strlit("sidebar_bg_color");
    reveal_strlit("sidebar_fg_color");
    reveal_strlit("sidebar_backdrop_color");
    reveal_strlit("secondary_sidebar_bg_color");
    reveal_strlit("secondary_sidebar_fg_color");
    reveal_strlit("secondary_sidebar_backdrop_color");
    reveal_strlit("card_bg_color");
    reveal_strlit("card_fg_color");
    reveal_strlit("dialog_bg_color");
    reveal_strlit("dialog_fg_color");
    reveal_strlit("popover_bg_color");
    reveal_strlit("popover_fg_color");
    reveal_strlit("thumbnail_bg_color");
    assert("accent_bg_color"@.len() != "thumbnail_bg_color"@.len());
    assert("accent_fg_color"@.len() != "thumbnail_bg_color"@.len());
    assert("destructive_bg_color"@.len() != "thumbnail_bg_color"@.len());
    assert("destructive_fg_color"@.len() != "thumbnail_bg_color"@.len());
    assert("success_bg_color"@.len() != "thumbnail_bg_color"@.len());
    assert("success_fg_color"@.len() != "thumbnail_bg_color"@.len());
    assert("warning_bg_color"@.len() != "thumbnail_bg_color"@.len());
    assert("warning_fg_color"@.len() != "thumbnail_bg_color"@.len());
    assert("error_bg_color"@.len() != "thumbnail_bg_color"@.len());
    assert("error_fg_color"@.len() != "thumbnail_bg_color"@.len());
    assert("window_bg_color"@.len() != "thumbnail_bg_color"@.len());
    assert("window_fg_color"@.len() != "thumbnail_bg_color"@.len());
    assert("view_bg_color"@.len() != "thumbnail_bg_color"@.len());
    assert("view_fg_color"@.len() != "thumbnail_bg_color"@.len());
    assert("headerbar_bg_color"@[0] != "thumbnail_bg_color"@[0]);
    assert("headerbar_fg_color"@[0] != "thumbnail_bg_color"@[0]);
    assert("headerbar_backdrop_color"@.len() != "thumbnail_bg_color"@.len());
    assert("sidebar_bg_color"@.len() != "thumbnail_bg_color"@.len());
    assert("sidebar_fg_color"@.len() != "thumbnail_bg_color"@.len());
    assert("sidebar_backdrop_color"@.len() != "thumbnail_bg_color"@.len());
    assert("secondary_sidebar_bg_color"@.len() != "thumbnail_bg_color"@.len());
    assert("secondary_sidebar_fg_color"@.len() != "thumbnail_bg_color"@.len());
    assert("secondary_sidebar_backdrop_color"@.len() != "thumbnail_bg_color"@.len());
    assert("card_bg_color"@.len() != "thumbnail_bg_color"@.len());
    assert("card_fg_color"@.len() != "thumbnail_bg_color"@.len());
    assert("dialog_bg_color"@.len() != "thumbnail_bg_color"@.len());
    assert("dialog_fg_color"@.len() != "thumbnail_bg_color"@.len());
    assert("popover_bg_color"@.len() != "thumbnail_bg_color"@.len());
    assert("popover_fg_color"@.len() != "thumbnail_bg_color"@.len());
    reveal_with_fuel(absent_before, 30);
    lemma_absent_before(define_map(p), "thumbnail_bg_color"@, 29);
    lemma_lookup_at(define_map(p), "thumbnail_bg_color"@, 29);
    lemma_define_line_known("thumbnail_bg_color"@, rest, p, p.surface_container_high);
}

proof fn lemma_define_role_thumbnail_fg_color(p: PaletteView, rest: Seq<char>)
    requires
        text::free_of(rest, '\n'),
    ensures
        recolored_decl("thumbnail_fg_color"@, p.on_surface) == recolor_defines_of(define_decl("thumbnail_fg_color"@, rest), p),
{
    reveal_strlit("accent_bg_color");
    reveal_strlit("accent_fg_color");
    reveal_strlit("destructive_bg_color");
    reveal_strlit("destructive_fg_color");
    reveal_strlit("success_bg_color");
    reveal_strlit("success_fg_color");
    reveal_strlit("warning_bg_color");
    reveal_strlit("warning_fg_color");
    reveal_strlit("error_bg_color");
    reveal_strlit("error_fg_color");
    reveal_strlit("window_bg_color");
    reveal_strlit("window_fg_color");
    reveal_strlit("view_bg_color");
    reveal_strlit("view_fg_color");
    reveal_strlit("headerbar_bg_color");
    reveal_strlit("headerbar_fg_color");
    reveal_strlit("headerbar_backdrop_color");
    reveal_strlit("sidebar_bg_color");
    reveal_strlit("sidebar_fg_color");
    reveal_strlit("sidebar_backdrop_color");
    reveal_strlit("secondary_sidebar_bg_color");
    reveal_strlit("secondary_sidebar_fg_color");
    reveal_strlit("secondary_sidebar_backdrop_color");
    reveal_strlit("card_bg_color");
    reveal_strlit("card_fg_color");
    reveal_strlit("dialog_bg_color");
    reveal_strlit("dialog_fg_color");
    reveal_strlit("popover_bg_color");
    reveal_strlit("popover_fg_color");
    reveal_strlit("thumbnail_bg_color");
    reveal_strlit("thumbnail_fg_color");
    assert("accent_bg_color"@.len() != "thumbnail_fg_color"@.len());
    assert("accent_fg_color"@.len() != "thumbnail_fg_color"@.len());
    assert("destructive_bg_color"@.len() != "thumbnail_fg_color"@.len());
    assert("destructive_fg_color"@.len() != "thumbnail_fg_color"@.len());
    assert("success_bg_color"@.len() != "thumbnail_fg_color"@.len());
    assert("success_fg_color"@.len() != "thumbnail_fg_color"@.len());
    assert("warning_bg_color"@.len() != "thumbnail_fg_color"@.len());
    assert("warning_fg_color"@.len() != "thumbnail_fg_color"@.len());
    assert("error_bg_color"@.len() != "thumbnail_fg_color"@.len());
    assert("error_fg_color"@.len() != "thumbnail_fg_color"@.len());
    assert("window_bg_color"@.len() != "thumbnail_fg_color"@.len());
    assert("window_fg_color"@.len() != "thumbnail_fg_color"@.len());
    assert("view_bg_color"@.len() != "thumbnail_fg_color"@.len());
    assert("view_fg_color"@.len() != "thumbnail_fg_color"@.len());
    assert("headerbar_bg_color"@[0] != "thumbnail_fg_color"@[0]);
    assert("headerbar_fg_color"@[0] != "thumbnail_fg_color"@[0]);
    assert("headerbar_backdrop_color"@.len() != "thumbnail_fg_color"@.len());
    assert("sidebar_bg_color"@.len() != "thumbnail_fg_color"@.len());
    assert("sidebar_fg_color"@.len() != "thumbnail_fg_color"@.len());
    assert("sidebar_backdrop_color"@.len() != "thumbnail_fg_color"@.len());
    assert("secondary_sidebar_bg_color"@.len() != "thumbnail_fg_color"@.len());
    assert("secondary_sidebar_fg_color"@.len() != "thumbnail_fg_color"@.len());
    assert("secondary_sidebar_backdrop_color"@.len() != "thumbnail_fg_color"@.len());
    assert("card_bg_color"@.len() != "thumbnail_fg_color"@.len());
    assert("card_fg_color"@.len() != "thumbnail_fg_color"@.len());
    assert("dialog_bg_color"@.len() != "thumbnail_fg_color"@.len());
    assert("dialog_fg_color"@.len() != "thumbnail_fg_color"@.len());
    assert("popover_bg_color"@.len() != "thumbnail_fg_color"@.len());
    assert("popover_fg_color"@.len() != "thumbnail_fg_color"@.len());
    assert("thumbnail_bg_color"@[10] != "thumbnail_fg_color"@[10]);
    reveal_with_fuel(absent_before, 31);
    lemma_absent_before(define_map(p), "thumbnail_fg_color"@, 30);
    lemma_lookup_at(define_map(p), "thumbnail_fg_color"@, 30);
    lemma_define_line_known("thumbnail_fg_color"@, rest, p, p.on_surface);
}

proof fn lemma_define_role_panel_bg_color(p: PaletteView, rest: Seq<char>)
    requires
        text::free_of(rest, '\n'),
    ensures
        recolored_decl("panel_bg_color"@, p.surface) == recolor_defines_of(define_decl("panel_bg_color"@, rest), p),
{
    reveal_strlit("accent_bg_color");
    reveal_strlit("accent_fg_color");
    reveal_strlit("destructive_bg_color");
    reveal_strlit("destructive_fg_color");
    reveal_strlit("success_bg_color");
    reveal_strlit("success_fg_color");
    reveal_strlit("warning_bg_color");
    reveal_strlit("warning_fg_color");
    reveal_strlit("error_bg_color");
    reveal_strlit("error_fg_color");
    reveal_strlit("window_bg_color");
    reveal_strlit("window_fg_color");
    reveal_strlit("view_bg_color");
    reveal_strlit("view_fg_color");
    reveal_strlit("headerbar_bg_color");
    reveal_strlit("headerbar_fg_color");
    reveal_strlit("headerbar_backdrop_color");
    reveal_strlit("sidebar_bg_color");
    reveal_strlit("sidebar_fg_color");
    reveal_strlit("sidebar_backdrop_color");
    reveal_strlit("secondary_sidebar_bg_color");
    reveal_strlit("secondary_sidebar_fg_color");
    reveal_strlit("secondary_sidebar_backdrop_color");
    reveal_strlit("card_bg_color");
    reveal_strlit("card_fg_color");
    reveal_strlit("dialog_bg_color");
    reveal_strlit("dialog_fg_color");
    reveal_strlit("popover_bg_color");
    reveal_strlit("popover_fg_color");
    reveal_strlit("thumbnail_bg_color");
    reveal_strlit("thumbnail_fg_color");
    reveal_strlit("panel_bg_color");
    assert("accent_bg_color"@.len() != "panel_bg_color"@.len());
    assert("accent_fg_color"@.len() != "panel_bg_color"@.len());
    assert("destructive_bg_color"@.len() != "panel_bg_color"@.len());
    assert("destructive_fg_color"@.len() != "panel_bg_color"@.len());
    assert("success_bg_color"@.len() != "panel_bg_color"@.len());
    assert("success_fg_color"@.len() != "panel_bg_color"@.len());
    assert("warning_bg_color"@.len() != "panel_bg_color"@.len());
    assert("warning_fg_color"@.len() != "panel_bg_color"@.len());
    assert("error_bg_color"@[0] != "panel_bg_color"@[0]);
    assert("error_fg_color"@[0] != "panel_bg_color"@[0]);
    assert("window_bg_color"@.len() != "panel_bg_color"@.len());
    assert("window_fg_color"@.len() != "panel_bg_color"@.len());
    assert("view_bg_color"@.len() != "panel_bg_color"@.len());
    assert("view_fg_color"@.len() != "panel_bg_color"@.len());
    assert("headerbar_bg_color"@.len() != "panel_bg_color"@.len());
    assert("headerbar_fg_color"@.len() != "panel_bg_color"@.len());
    assert("headerbar_backdrop_color"@.len() != "panel_bg_color"@.len());
    assert("sidebar_bg_color"@.len() != "panel_bg_color"@.len());
    assert("sidebar_fg_color"@.len() != "panel_bg_color"@.len());
    assert("sidebar_backdrop_color"@.len() != "panel_bg_color"@.len());
    assert("secondary_sidebar_bg_color"@.len() != "panel_bg_color"@.len());
    assert("secondary_sidebar_fg_color"@.len() != "panel_bg_color"@.len());
    assert("secondary_sidebar_backdrop_color"@.len() != "panel_bg_color"@.len());
    assert("card_bg_color"@.len() != "panel_bg_color"@.len());
    assert("card_fg_color"@.len() != "panel_bg_color"@.len());
    assert("dialog_bg_color"@.len() != "panel_bg_color"@.len());
    assert("dialog_fg_color"@.len() != "panel_bg_color"@.len());
    assert("popover_bg_color"@.len() != "panel_bg_color"@.len());
    assert("popover_fg_color"@.len() != "panel_bg_color"@.len());
    assert("thumbnail_bg_color"@.len() != "panel_bg_color"@.len());
    assert("thumbnail_fg_color"@.len() != "panel_bg_color"@.len());
    reveal_with_fuel(absent_before, 32);
    lemma_absent_before(define_map(p), "panel_bg_color"@, 31);
    lemma_lookup_at(define_map(p), "panel_bg_color"@, 31);
    lemma_define_line_known("panel_bg_color"@, rest, p, p.surface);
}

proof fn lemma_define_role_panel_fg_color(p: PaletteView, rest: Seq<char>)
    requires
        text::free_of(rest, '\n'),
    ensures
        recolored_decl("panel_fg_color"@, p.on_surface) == recolor_defines_of(define_decl("panel_fg_color"@, rest), p),
{
    reveal_strlit("accent_bg_color");
    reveal_strlit("accent_fg_color");
    reveal_strlit("destructive_bg_color");
    reveal_strlit("destructive_fg_color");
    reveal_strlit("success_bg_color");
    reveal_strlit("success_fg_color");
    reveal_strlit("warning_bg_color");
    reveal_strlit("warning_fg_color");
    reveal_strlit("error_bg_color");
    reveal_strlit("error_fg_color");
    reveal_strlit("window_bg_color");
    reveal_strlit("window_fg_color");
    reveal_strlit("view_bg_color");
    reveal_strlit("view_fg_color");
    reveal_strlit("headerbar_bg_color");
    reveal_strlit("headerbar_fg_color");
    reveal_strlit("headerbar_backdrop_color");
    reveal_strlit("sidebar_bg_color");
    reveal_strlit("sidebar_fg_color");
    reveal_strlit("sidebar_backdrop_color");
    reveal_strlit("secondary_sidebar_bg_color");
    reveal_strlit("secondary_sidebar_fg_color");
    reveal_strlit("secondary_sidebar_backdrop_color");
    reveal_strlit("card_bg_color");
    reveal_strlit("card_fg_color");
    reveal_strlit("dialog_bg_color");
    reveal_strlit("dialog_fg_color");
    reveal_strlit("popover_bg_color");
    reveal_strlit("popover_fg_color");
    reveal_strlit("thumbnail_bg_color");
    reveal_strlit("thumbnail_fg_color");
    reveal_strlit("panel_bg_color");
    reveal_strlit("panel_fg_color");
    assert("accent_bg_color"@.len() != "panel_fg_color"@.len());
    assert("accent_fg_color"@.len() != "panel_fg_color"@.len());
    assert("destructive_bg_color"@.len() != "panel_fg_color"@.len());
    assert("destructive_fg_color"@.len() != "panel_fg_color"@.len());
    assert("success_bg_color"@.len() != "panel_fg_color"@.len());
    assert("success_fg_color"@.len() != "panel_fg_color"@.len());
    assert("warning_bg_color"@.len() != "panel_fg_color"@.len());
    assert("warning_fg_color"@.len() != "panel_fg_color"@.len());
    assert("error_bg_color"@[0] != "panel_fg_color"@[0]);
    assert("error_fg_color"@[0] != "panel_fg_color"@[0]);
    assert("window_bg_color"@.len() != "panel_fg_color"@.len());
    assert("window_fg_color"@.len() != "panel_fg_color"@.len());
    assert("view_bg_color"@.len() != "panel_fg_color"@.len());
    assert("view_fg_color"@.len() != "panel_fg_color"@.len());
    assert("headerbar_bg_color"@.len() != "panel_fg_color"@.len());
    assert("headerbar_fg_color"@.len() != "panel_fg_color"@.len());
    assert("headerbar_backdrop_color"@.len() != "panel_fg_color"@.len());
    assert("sidebar_bg_color"@.len() != "panel_fg_color"@.len());
    assert("sidebar_fg_color"@.len() != "panel_fg_color"@.len());
    assert("sidebar_backdrop_color"@.len() != "panel_fg_color"@.len());
    assert("secondary_sidebar_bg_color"@.len() != "panel_fg_color"@.len());
    assert("secondary_sidebar_fg_color"@.len() != "panel_fg_color"@.len());
    assert("secondary_sidebar_backdrop_color"@.len() != "panel_fg_color"@.len());
    assert("card_bg_color"@.len() != "panel_fg_color"@.len());
    assert("card_fg_color"@.len() != "panel_fg_color"@.len());
    assert("dialog_bg_color"@.len() != "panel_fg_color"@.len());
    assert("dialog_fg_color"@.len() != "panel_fg_color"@.len());
    assert("popover_bg_color"@.len() != "panel_fg_color"@.len());
    assert("popover_fg_color"@.len() != "panel_fg_color"@.len());
    assert("thumbnail_bg_color"@.len() != "panel_fg_color"@.len());
    assert("thumbnail_fg_color"@.len() != "panel_fg_color"@.len());
    assert("panel_bg_color"@[6] != "panel_fg_color"@[6]);
    reveal_with_fuel(absent_before, 33);
    lemma_absent_before(define_map(p), "panel_fg_color"@, 32);
    lemma_lookup_at(define_map(p), "panel_fg_color"@, 32);
    lemma_define_line_known("panel_fg_color"@, rest, p, p.on_surface);
}

/// Each `@define-color` name the theme recolors takes its own palette color,
/// whatever the line held before: the accent, destructive, success,
/// warning and error colors take the primary, error, secondary, tertiary
/// and error roles (their foregrounds the matching `on_` role), windows and
/// panels the surface, views the low container, header bars and sidebars
/// the container, cards, dialogs, popovers and thumbnails the high
/// container, backdrops the surface, and every other foreground `on_surface`.
pub proof fn lemma_define_colors_take_roles(p: PaletteView, rest: Seq<char>)
    requires
        text::free_of(rest, '\n'),
    ensures
        recolored_decl("accent_bg_color"@, p.primary) == recolor_defines_of(define_decl("accent_bg_color"@, rest), p),
        recolored_decl("accent_fg_color"@, p.on_primary) == recolor_defines_of(define_decl("accent_fg_color"@, rest), p),
        recolored_decl("destructive_bg_color"@, p.error) == recolor_defines_of(define_decl("destructive_bg_color"@, rest), p),
        recolored_decl("destructive_fg_color"@, p.on_error) == recolor_defines_of(define_decl("destructive_fg_color"@, rest), p),
        recolored_decl("success_bg_color"@, p.secondary) == recolor_defines_of(define_decl("success_bg_color"@, rest), p),
        recolored_decl("success_fg_color"@, p.on_secondary) == recolor_defines_of(define_decl("success_fg_color"@, rest), p),
        recolored_decl("warning_bg_color"@, p.tertiary) == recolor_defines_of(define_decl("warning_bg_color"@, rest), p),
        recolored_decl("warning_fg_color"@, p.on_tertiary) == recolor_defines_of(define_decl("warning_fg_color"@, rest), p),
        recolored_decl("error_bg_color"@, p.error) == recolor_defines_of(define_decl("error_bg_color"@, rest), p),
        recolored_decl("error_fg_color"@, p.on_error) == recolor_defines_of(define_decl("error_fg_color"@, rest), p),
        recolored_decl("window_bg_color"@, p.surface) == recolor_defines_of(define_decl("window_bg_color"@, rest), p),
        recolored_decl("window_fg_color"@, p.on_surface) == recolor_defines_of(define_decl("window_fg_color"@, rest), p),
        recolored_decl("view_bg_color"@, p.surface_container_low) == recolor_defines_of(define_decl("view_bg_color"@, rest), p),
        recolored_decl("view_fg_color"@, p.on_surface) == recolor_defines_of(define_decl("view_fg_color"@, rest), p),
        recolored_decl("headerbar_bg_color"@, p.surface_container) == recolor_defines_of(define_decl("headerbar_bg_color"@, rest), p),
        recolored_decl("headerbar_fg_color"@, p.on_surface) == recolor_defines_of(define_decl("headerbar_fg_color"@, rest), p),
        recolored_decl("headerbar_backdrop_color"@, p.surface) == recolor_defines_of(define_decl("headerbar_backdrop_color"@, rest), p),
        recolored_decl("sidebar_bg_color"@, p.surface_container) == recolor_defines_of(define_decl("sidebar_bg_color"@, rest), p),
        recolored_decl("sidebar_fg_color"@, p.on_surface) == recolor_defines_of(define_decl("sidebar_fg_color"@, rest), p),
        recolored_decl("sidebar_backdrop_color"@, p.surface) == recolor_defines_of(define_decl("sidebar_backdrop_color"@, rest), p),
        recolored_decl("secondary_sidebar_bg_color"@, p.surface_container) == recolor_defines_of(define_decl("secondary_sidebar_bg_color"@, rest), p),
        recolored_decl("secondary_sidebar_fg_color"@, p.on_surface) == recolor_defines_of(define_decl("secondary_sidebar_fg_color"@, rest), p),
        recolored_decl("secondary_sidebar_backdrop_color"@, p.surface) == recolor_defines_of(define_decl("secondary_sidebar_backdrop_color"@, rest), p),
        recolored_decl("card_bg_color"@, p.surface_container_high) == recolor_defines_of(define_decl("card_bg_color"@, rest), p),
        recolored_decl("card_fg_color"@, p.on_surface) == recolor_defines_of(define_decl("card_fg_color"@, rest), p),
        recolored_decl("dialog_bg_color"@, p.surface_container_high) == recolor_defines_of(define_decl("dialog_bg_color"@, rest), p),
        recolored_decl("dialog_fg_color"@, p.on_surface) == recolor_defines_of(define_decl("dialog_fg_color"@, rest), p),
        recolored_decl("popover_bg_color"@, p.surface_container_high) == recolor_defines_of(define_decl("popover_bg_color"@, rest), p),
        recolored_decl("popover_fg_color"@, p.on_surface) == recolor_defines_of(define_decl("popover_fg_color"@, rest), p),
        recolored_decl("thumbnail_bg_color"@, p.surface_container_high) == recolor_defines_of(define_decl("thumbnail_bg_color"@, rest), p),
        recolored_decl("thumbnail_fg_color"@, p.on_surface) == recolor_defines_of(define_decl("thumbnail_fg_color"@, rest), p),
        recolored_decl("panel_bg_color"@, p.surface) == recolor_defines_of(define_decl("panel_bg_color"@, rest), p),
        recolored_decl("panel_fg_color"@, p.on_surface) == recolor_defines_of(define_decl("panel_fg_color"@, rest), p),
{
    lemma_define_role_accent_bg_color(p, rest);
    lemma_define_role_accent_fg_color(p, rest);
    lemma_define_role_destructive_bg_color(p, rest);
    lemma_define_role_destructive_fg_color(p, rest);
    lemma_define_role_success_bg_color(p, rest);
    lemma_define_role_success_fg_color(p, rest);
    lemma_define_role_warning_bg_color(p, rest);
    lemma_define_role_warning_fg_color(p, rest);
    lemma_define_role_error_bg_color(p, rest);
    lemma_define_role_error_fg_color(p, rest);
    lemma_define_role_window_bg_color(p, rest);
    lemma_define_role_window_fg_color(p, rest);
    lemma_define_role_view_bg_color(p, rest);
    lemma_define_role_view_fg_color(p, rest);
    lemma_define_role_headerbar_bg_color(p, rest);
    lemma_define_role_headerbar_fg_color(p, rest);
    lemma_define_role_headerbar_backdrop_color(p, rest);
    lemma_define_role_sidebar_bg_color(p, rest);
    lemma_define_role_sidebar_fg_color(p, rest);
    lemma_define_role_sidebar_backdrop_color(p, rest);
    lemma_define_role_secondary_sidebar_bg_color(p, rest);
    lemma_define_role_secondary_sidebar_fg_color(p, rest);
    lemma_define_role_secondary_sidebar_backdrop_color(p, rest);
    lemma_define_role_card_bg_color(p, rest);
    lemma_define_role_card_fg_color(p, rest);
    lemma_define_role_dialog_bg_color(p, rest);
    lemma_define_role_dialog_fg_color(p, rest);
    lemma_define_role_popover_bg_color(p, rest);
    lemma_define_role_popover_fg_color(p, rest);
    lemma_define_role_thumbnail_bg_color(p, rest);
    lemma_define_role_thumbnail_fg_color(p, rest);
    lemma_define_role_panel_bg_color(p, rest);
    lemma_define_role_panel_fg_color(p, rest);
}

proof fn lemma_lookup_none(m: Seq<(Seq<char>, Seq<char>)>, k: Seq<char>)
    requires
        forall|j: int| 0 <= j < m.len() ==> (#[trigger] m[j]).0 != k,
    ensures
        lookup(m, k) is None,
    decreases m.len(),
{
    if m.len() > 0 {
        assert(m[0].0 != k);
        let r = m.drop_first();
        assert forall|j: int| 0 <= j < r.len() implies (#[trigger] r[j]).0 != k by {
            assert(r[j] == m[j + 1]);
        }
        lemma_lookup_none(r, k);
    }
}

/// A `@define-color` of a name the palette does not set is left as it was.
pub proof fn lemma_other_defines_kept(p: PaletteView, name: Seq<char>, rest: Seq<char>)
    requires
        name.len() > 0,
        forall|i: int| 0 <= i < name.len() ==> !text::is_ws(#[trigger] name[i]),
        text::free_of(rest, '\n'),
        name != "accent_bg_color"@,
        name != "accent_fg_color"@,
        name != "destructive_bg_color"@,
        name != "destructive_fg_color"@,
        name != "success_bg_color"@,
        name != "success_fg_color"@,
        name != "warning_bg_color"@,
        name != "warning_fg_color"@,
        name != "error_bg_color"@,
        name != "error_fg_color"@,
        name != "window_bg_color"@,
        name != "window_fg_color"@,
        name != "view_bg_color"@,
        name != "view_fg_color"@,
        name != "headerbar_bg_color"@,
        name != "headerbar_fg_color"@,
        name != "headerbar_backdrop_color"@,
        name != "sidebar_bg_color"@,
        name != "sidebar_fg_color"@,
        name != "sidebar_backdrop_color"@,
        name != "secondary_sidebar_bg_color"@,
        name != "secondary_sidebar_fg_color"@,
        name != "secondary_sidebar_backdrop_color"@,
        name != "card_bg_color"@,
        name != "card_fg_color"@,
        name != "dialog_bg_color"@,
        name != "dialog_fg_color"@,
        name != "popover_bg_color"@,
        name != "popover_fg_color"@,
        name != "thumbnail_bg_color"@,
        name != "thumbnail_fg_color"@,
        name != "panel_bg_color"@,
        name != "panel_fg_color"@,
    ensures
        recolor_defines_of(define_decl(name, rest), p) == define_decl(name, rest),
{
    reveal_with_fuel(absent_before, 34);
    lemma_absent_before(define_map(p), name, 33);
    lemma_lookup_none(define_map(p), name);
    reveal_strlit("@define-color ");
    let head = "@define-color "@;
    let line = define_decl(name, rest);
    assert(line[0] == '@');
    assert(text::trim_start(line) == line);
    assert(line.subrange(0, 14) =~= head);
    let x = line.skip(14);
    assert(x =~= name + seq![' '] + rest);
    assert(x[0] == name[0]);
    assert(text::trim_start(x) == x);
    assert forall|j: int| 0 <= j < name.len() implies !text::is_ws(#[trigger] x[j]) by {
        assert(x[j] == name[j]);
    }
    assert(x[name.len() as int] == ' ');
    lemma_ws_index(x, name.len() as int);
    assert(x.take(name.len() as int) =~= name);
    assert(first_token(x) == name);
    assert(define_line(line, p) == line);
    assert(text::free_of(line, '\n')) by {
        assert forall|j: int| 0 <= j < line.len() implies #[trigger] line[j] != '\n' by {
            if j >= 14 && j < 14 + name.len() {
                assert(line[j] == name[j - 14]);
            } else if j >= 15 + name.len() {
                assert(line[j] == rest[j - 15 - name.len()]);
            }
        }
    }
    text::lemma_lines_single(line);
    let mapped = seq![line].map_values(|l: Seq<char>| define_line(l, p));
    assert(mapped =~= seq![define_line(line, p)]);
}

} // verus!
