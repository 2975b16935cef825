//! Persistent Studio settings: the parts that hold no floating-point numbers.
use vstd::prelude::*;
use crate::text;

verus! {

/// Which Material color specification generates the palette.
#[derive(Debug, Clone, Copy, PartialEq, Eq, Structural)]
pub enum MaterialSpec {
    V2021,
    V2025,
}

impl Default for MaterialSpec {
    /// The 2025 specification is the default.
    fn default() -> (r: MaterialSpec)
        ensures
            r == MaterialSpec::V2025,
    {
        MaterialSpec::V2025
    }
}

/// The Material role that Rounded Corners outlines follow.
#[derive(Debug, Clone, Copy, PartialEq, Eq, Structural)]
pub enum OutlineSource {
    Automatic,
    Primary,
    Outline,
    OutlineVariant,
}

impl Default for OutlineSource {
    fn default() -> (r: OutlineSource)
        ensures
            r == OutlineSource::Automatic,
    {
        OutlineSource::Automatic
    }
}

#[derive(Debug, Clone, PartialEq, Eq, Structural)]
pub struct KlassySettings {
    pub enabled: bool,
    pub outline_sync: bool,
    pub titlebar_opacity: Option<u8>,
}

impl Default for KlassySettings {
    fn default() -> (r: KlassySettings)
        ensures
            !r.enabled,
            !r.outline_sync,
            r.titlebar_opacity is None,
    {
        KlassySettings { enabled: false, outline_sync: false, titlebar_opacity: None }
    }
}

#[derive(Debug, Clone, PartialEq, Eq, Structural)]
pub struct RoundedCornersSettings {
    pub enabled: bool,
    pub outline_sync: bool,
    pub outline_source: OutlineSource,
}

impl Default for RoundedCornersSettings {
    fn default() -> (r: RoundedCornersSettings)
        ensures
            !r.enabled,
            !r.outline_sync,
            r.outline_source == OutlineSource::Automatic,
    {
        RoundedCornersSettings { enabled: false, outline_sync: false, outline_source: OutlineSource::Automatic }
    }
}

#[derive(Debug, Clone, PartialEq, Eq, Structural)]
pub struct KdeIntegrationSettings {
    pub klassy: KlassySettings,
    pub rounded_corners: RoundedCornersSettings,
}

/// Light or dark palettes, or a choice by wallpaper luminance.
#[derive(Debug, Clone, Copy, PartialEq, Eq, Structural)]
pub enum ColorMode {
    Dark,
    Light,
    Auto,
}

impl Default for ColorMode {
    fn default() -> (r: ColorMode)
        ensures
            r == ColorMode::Auto,
    {
        ColorMode::Auto
    }
}

/// The titlebar opacity, when set, is a percentage.
pub open spec fn integrations_valid(s: KdeIntegrationSettings) -> bool {
    s.klassy.titlebar_opacity matches Some(v) ==> v <= 100
}

impl Default for KdeIntegrationSettings {
    /// Every integration disabled, outlines following the automatic role.
    fn default() -> (r: KdeIntegrationSettings)
        ensures
            !r.klassy.enabled,
            !r.klassy.outline_sync,
            r.klassy.titlebar_opacity is None,
            !r.rounded_corners.enabled,
            !r.rounded_corners.outline_sync,
            r.rounded_corners.outline_source == OutlineSource::Automatic,
    {
        KdeIntegrationSettings {
            klassy: KlassySettings { enabled: false, outline_sync: false, titlebar_opacity: None },
            rounded_corners: RoundedCornersSettings {
                enabled: false,
                outline_sync: false,
                outline_source: OutlineSource::Automatic,
            },
        }
    }
}

impl KdeIntegrationSettings {
    pub fn validate(&self) -> (r: Result<(), String>)
        ensures
            r is Ok <==> integrations_valid(*self),
            r matches Err(e) ==> e@ == "Titlebar opacity must be between 0 and 100"@,
    {
        match self.klassy.titlebar_opacity {
            Some(v) if v > 100 => Err(String::from_str("Titlebar opacity must be between 0 and 100")),
            _ => Ok(()),
        }
    }
}

/// A KDE override color is `#` followed by six hexadecimal digits.
pub open spec fn valid_override_color(s: Seq<char>) -> bool {
    &&& s.len() == 7
    &&& s[0] == '#'
    &&& forall|i: int| 1 <= i < 7 ==> text::is_hex_digit(#[trigger] s[i])
}

pub fn valid_override_color_exec(s: &str) -> (r: bool)
    ensures
        r == valid_override_color(s@),
{
    let v = text::chars_of(s);
    if v.len() != 7 || v[0] != '#' {
        return false;
    }
    let mut i: usize = 1;
    while i < 7
        invariant
            v@ == s@,
            v.len() == 7,
            1 <= i <= 7,
            forall|j: int| 1 <= j < i ==> text::is_hex_digit(#[trigger] v@[j]),
        decreases 7 - i,
    {
        if !text::is_hex_digit_exec(v[i]) {
            return false;
        }
        i = i + 1;
    }
    true
}

/// The color check of the settings: every KDE override color must be a
/// `#RRGGBB` value. (A byte length of 7 with `#` first and six ASCII
/// hexadecimal bytes is the same as seven characters of that form.)
pub fn validate_kde_override_colors(values: &Vec<String>) -> (r: Result<(), String>)
    ensures
        r is Ok <==> forall|i: int| 0 <= i < values.len() ==> valid_override_color(
            #[trigger] values@[i]@,
        ),
        r matches Err(e) ==> e@ == "Invalid KDE override color"@,
{
    let mut i: usize = 0;
    while i < values.len()
        invariant
            i <= values.len(),
            forall|j: int| 0 <= j < i ==> valid_override_color(#[trigger] values@[j]@),
        decreases values.len() - i,
    {
        if !valid_override_color_exec(values[i].as_str()) {
            return Err(String::from_str("Invalid KDE override color"));
        }
        i = i + 1;
    }
    Ok(())
}

/// The settings validation that holds no floating-point ranges: the
/// integration settings first, then the override colors.
pub fn validate_settings_without_generation(
    integrations: &KdeIntegrationSettings,
    kde_override_colors: &Vec<String>,
) -> (r: Result<(), String>)
    ensures
        r is Ok <==> integrations_valid(*integrations) && forall|i: int|
            0 <= i < kde_override_colors.len() ==> valid_override_color(
                #[trigger] kde_override_colors@[i]@,
            ),
        !integrations_valid(*integrations) ==> (r matches Err(e) && e@
            == "Titlebar opacity must be between 0 and 100"@),
        integrations_valid(*integrations) ==> (r matches Err(e) ==> e@
            == "Invalid KDE override color"@),
{
    integrations.validate()?;
    validate_kde_override_colors(kde_override_colors)
}

} // verus!
