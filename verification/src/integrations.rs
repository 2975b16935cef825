//! Optional Plasma integrations (Klassy window decoration and the KWin
//! Rounded Corners effect): detection and the color/opacity patches.
use vstd::prelude::*;
use crate::context::{entry_of, opt_view, SchemeContext};
use crate::ini::IniPatch;
use crate::matching::{regex_captured, regex_captures};
use crate::settings::{KdeIntegrationSettings, OutlineSource};
use crate::text;
use crate::text::{dec, lines, trim};

verus! {

/// What was found of one integration.
#[derive(Debug, Clone)]
pub struct IntegrationDetection {
    pub detected: bool,
    pub supported: bool,
    pub version: Option<String>,
    pub active: bool,
    pub message: String,
}

#[derive(Debug, Clone)]
pub struct KdeIntegrationDetection {
    pub klassy: IntegrationDetection,
    pub rounded_corners: IntegrationDetection,
}

/// The KWin effect ID of Rounded Corners.
pub open spec fn rounded_id() -> Seq<char> {
    "kwin4_effect_shapecorners"@
}

// ── Klassy version ───────────────────────────────────────────────────────────

/// The pattern of a version number `major.minor.patch`.
pub open spec fn version_pattern() -> Seq<char> {
    "\\b(\\d+)\\.(\\d+)\\.(\\d+)\\b"@
}

/// The whole match and the first two groups of a version match, where each
/// took part.
pub open spec fn version_capture(text: Seq<char>) -> Option<(Seq<char>, Seq<char>, Seq<char>)> {
    match regex_captured(version_pattern(), text) {
        Some(g) => if g.len() >= 3 && g[0] is Some && g[1] is Some && g[2] is Some {
            Some((g[0]->0, g[1]->0, g[2]->0))
        } else {
            None
        },
        None => None,
    }
}

fn version_capture_exec(text: &str) -> (r: Option<(String, String, String)>)
    ensures
        r matches Some(x) ==> version_capture(text@) == Some((x.0@, x.1@, x.2@)),
        r is None ==> version_capture(text@) is None,
{
    let groups = regex_captures("\\b(\\d+)\\.(\\d+)\\.(\\d+)\\b", text)?;
    if groups.len() < 3 {
        return None;
    }
    match (&groups[0], &groups[1], &groups[2]) {
        (Some(a), Some(b), Some(c)) => Some((a.clone(), b.clone(), c.clone())),
        _ => None,
    }
}

/// What a version match gives: the version text and whether it is Klassy
/// 6.5+ (within major 6); nothing where a group is not a number.
pub open spec fn version_from_capture_of(c: (Seq<char>, Seq<char>, Seq<char>)) -> Option<(Seq<char>, bool)> {
    match (text::parse_unsigned(c.1, u32::MAX as nat), text::parse_unsigned(c.2, u32::MAX as nat)) {
        (Some(a), Some(b)) => Some((c.0, a == 6 && b >= 5)),
        _ => None,
    }
}

/// The version text and whether Klassy 6.5+ (within major 6) is supported.
pub open spec fn klassy_version_of(text: Seq<char>) -> Option<(Seq<char>, bool)> {
    match version_capture(text) {
        Some(c) => version_from_capture_of(c),
        None => None,
    }
}

/// Reads a version match: the whole match, the major and the minor number.
pub fn version_from_capture(whole: String, major: &str, minor: &str) -> (r: Option<(String, bool)>)
    ensures
        r matches Some(x) ==> version_from_capture_of((whole@, major@, minor@)) == Some((x.0@, x.1)),
        r is None ==> version_from_capture_of((whole@, major@, minor@)) is None,
{
    let major_v = text::chars_of(major);
    let minor_v = text::chars_of(minor);
    let a = text::parse_unsigned_exec(&major_v, 0xffff_ffff)?;
    let b = text::parse_unsigned_exec(&minor_v, 0xffff_ffff)?;
    Some((whole, a == 6 && b >= 5))
}

/// Reads the version that `klassy-settings --version` printed.
pub fn klassy_version(text: &str) -> (r: Option<(String, bool)>)
    ensures
        r matches Some(x) ==> klassy_version_of(text@) == Some((x.0@, x.1)),
        r is None ==> klassy_version_of(text@) is None,
{
    let (whole, major, minor) = version_capture_exec(text)?;
    version_from_capture(whole, major.as_str(), minor.as_str())
}

// ── Rounded Corners effect ───────────────────────────────────────────────────

/// The characters that separate effect IDs in KWin's D-Bus reply.
pub open spec fn effect_separator(c: char) -> bool {
    c == '\'' || c == '"' || c == ',' || c == ' ' || c == '\n' || c == '[' || c == ']' || c
        == '(' || c == ')'
}

/// `t` occurs in `s` as a whole piece between separators.
pub open spec fn token_at(s: Seq<char>, t: Seq<char>, i: int) -> bool {
    &&& text::occurs_at(s, t, i)
    &&& (i == 0 || effect_separator(s[i - 1]))
    &&& (i + t.len() == s.len() || effect_separator(s[i + t.len()]))
}

/// The effect list names Rounded Corners exactly (not a fork with a longer ID).
pub open spec fn has_effect_spec(output: Seq<char>) -> bool {
    exists|i: int| 0 <= i <= output.len() && #[trigger] token_at(output, rounded_id(), i)
}

fn effect_separator_exec(c: char) -> (r: bool)
    ensures
        r == effect_separator(c),
{
    c == '\'' || c == '"' || c == ',' || c == ' ' || c == '\n' || c == '[' || c == ']' || c
        == '(' || c == ')'
}

/// Whether KWin's list of effects holds Rounded Corners' ID as a whole piece.
pub fn has_effect(output: &str) -> (r: bool)
    ensures
        r == has_effect_spec(output@),
{
    let s = text::chars_of(output);
    let id = text::chars_of("kwin4_effect_shapecorners");
    let mut i: usize = 0;
    while i < s.len()
        invariant
            s@ == output@,
            id@ == rounded_id(),
            i <= s.len(),
            forall|j: int| 0 <= j < i ==> !#[trigger] token_at(s@, id@, j),
        decreases s.len() - i,
    {
        if text::occurs_at_exec(&s, &id, i) {
            let before = i == 0 || effect_separator_exec(s[i - 1]);
            let after = i + id.len() == s.len() || effect_separator_exec(s[i + id.len()]);
            if before && after {
                assert(token_at(s@, id@, i as int));
                return true;
            }
        }
        i = i + 1;
    }
    if text::occurs_at_exec(&s, &id, i) {
        let before = i == 0 || effect_separator_exec(s[i - 1]);
        if before {
            assert(token_at(s@, id@, i as int));
            return true;
        }
    }
    assert forall|j: int| 0 <= j <= s@.len() implies !#[trigger] token_at(s@, id@, j) by {
        if j == s@.len() {
            assert(!token_at(s@, id@, j));
        }
    }
    false
}

// ── Detection ────────────────────────────────────────────────────────────────

pub open spec fn not_found_detection(d: IntegrationDetection) -> bool {
    !d.detected && !d.supported && d.version is None && !d.active
}

/// `kwinrc` selects Klassy as the window decoration library.
pub open spec fn klassy_active_in(kwinrc: Seq<char>) -> bool {
    exists|i: int|
        0 <= i < lines(kwinrc).len() && trim(#[trigger] lines(kwinrc)[i])
            == "library=org.kde.klassy"@
}

pub open spec fn klassy_active_opt(kwinrc: Option<&str>) -> bool {
    match kwinrc {
        Some(c) => klassy_active_in(c@),
        None => false,
    }
}

fn blank_detection(message: &str) -> (r: IntegrationDetection)
    ensures
        not_found_detection(r),
        r.message@ == message@,
{
    IntegrationDetection {
        detected: false,
        supported: false,
        version: None,
        active: false,
        message: String::from_str(message),
    }
}

fn klassy_active_exec(kwinrc: Option<&str>) -> (r: bool)
    ensures
        r == klassy_active_opt(kwinrc),
{
    match kwinrc {
        None => false,
        Some(c) => {
            let cv = text::chars_of(c);
            let ls = text::lines_exec(&cv);
            let ghost lv = lines(c@);
            let mut i: usize = 0;
            while i < ls.len()
                invariant
                    kwinrc == Some(c),
                    text::views(ls@) == lv,
                    lv == lines(c@),
                    i <= ls.len(),
                    forall|j: int| 0 <= j < i ==> trim(#[trigger] lv[j])
                        != "library=org.kde.klassy"@,
                decreases ls.len() - i,
            {
                let t = text::trim_exec(&ls[i]);
                assert(lv[i as int] == ls@[i as int]@);
                if text::eq_str(&t, "library=org.kde.klassy") {
                    assert(trim(lines(c@)[i as int]) == "library=org.kde.klassy"@);
                    assert(0 <= i < lines(c@).len());
                    assert(klassy_active_in(c@));
                    return true;
                }
                i = i + 1;
            }
            false
        },
    }
}

/// What `klassy-settings --version` (`None` where it failed) and `kwinrc`
/// say of Klassy.
pub fn klassy_detection(version_output: Option<&str>, kwinrc: Option<&str>) -> (r:
    IntegrationDetection)
    ensures
        version_output is None ==> not_found_detection(r) && r.message@ == "Klassy not detected"@,
        version_output matches Some(out) ==> match klassy_version_of(out@) {
            None => not_found_detection(r) && r.message@
                == "Klassy detected; version could not be verified"@,
            Some((version, supported)) => {
                let active = klassy_active_opt(kwinrc);
                &&& r.detected
                &&& r.supported == supported
                &&& opt_view(r.version) == Some(version)
                &&& r.active == active
                &&& r.message@ == (if supported && !active {
                    "Detected; select Klassy in KDE Window Decorations to see changes"@
                } else if supported {
                    "Detected"@
                } else {
                    "This Klassy version is not supported"@
                })
            },
        },
{
    match version_output {
        None => blank_detection("Klassy not detected"),
        Some(out) => match klassy_version(out) {
            None => blank_detection("Klassy detected; version could not be verified"),
            Some((version, supported)) => {
                let active = klassy_active_exec(kwinrc);
                let message = if supported && !active {
                    String::from_str("Detected; select Klassy in KDE Window Decorations to see changes")
                } else if supported {
                    String::from_str("Detected")
                } else {
                    String::from_str("This Klassy version is not supported")
                };
                IntegrationDetection {
                    detected: true,
                    supported,
                    version: Some(version),
                    active,
                    message,
                }
            },
        },
    }
}

/// What KWin's effect list (`None` where the query failed) and, where the
/// effect is available, the `isEffectLoaded` reply say of Rounded Corners.
pub fn rounded_corners_detection(effects_output: Option<&str>, loaded_output: Option<&str>) -> (r:
    IntegrationDetection)
    ensures
        effects_output is None ==> not_found_detection(r) && r.message@
            == "KDE Rounded Corners detection unavailable"@,
        effects_output matches Some(out) ==> if has_effect_spec(out@) {
            let active = loaded_output matches Some(l) && text::contains(l@, "true"@);
            &&& r.detected
            &&& r.supported
            &&& r.version is None
            &&& r.active == active
            &&& r.message@ == (if active {
                "Detected"@
            } else {
                "Detected; enable Rounded Corners in KDE Desktop Effects to see changes"@
            })
        } else {
            not_found_detection(r) && r.message@ == "KDE Rounded Corners not detected"@
        },
{
    match effects_output {
        None => blank_detection("KDE Rounded Corners detection unavailable"),
        Some(out) => {
            if has_effect(out) {
                let active = match loaded_output {
                    Some(l) => {
                        let lv = text::chars_of(l);
                        text::contains_str(&lv, "true")
                    },
                    None => false,
                };
                let message = if active {
                    String::from_str("Detected")
                } else {
                    String::from_str(
                        "Detected; enable Rounded Corners in KDE Desktop Effects to see changes",
                    )
                };
                IntegrationDetection {
                    detected: true,
                    supported: true,
                    version: None,
                    active,
                    message,
                }
            } else {
                blank_detection("KDE Rounded Corners not detected")
            }
        },
    }
}

// ── Material roles and patches ───────────────────────────────────────────────

/// The string at `colors.<name>.default.hex`, else at `.color`.
pub open spec fn role_text(ctx: SchemeContext, name: Seq<char>) -> Option<Seq<char>> {
    match entry_of(ctx, name, "default"@) {
        Some(e) => match opt_view(e.hex) {
            Some(h) => Some(h),
            None => opt_view(e.color),
        },
        None => None,
    }
}

/// `#RRGGBB` or `#RRGGBBAA`.
pub open spec fn valid_role_hex(h: Seq<char>) -> bool {
    &&& (h.len() == 7 || h.len() == 9)
    &&& h[0] == '#'
    &&& forall|i: int| 1 <= i < h.len() ==> text::is_hex_digit(#[trigger] h[i])
}

/// A Material role's color as `#RRGGBB`, or the error the integrations report.
pub open spec fn role_of(ctx: SchemeContext, name: Seq<char>) -> Result<Seq<char>, Seq<char>> {
    match role_text(ctx, name) {
        None => Err("Missing Material role: "@ + name),
        Some(h) => if valid_role_hex(h) {
            Ok(h.take(7))
        } else {
            Err("Invalid Material color: "@ + name)
        },
    }
}

fn valid_role_hex_exec(h: &[char]) -> (r: bool)
    ensures
        r == valid_role_hex(h@),
{
    if !(h.len() == 7 || h.len() == 9) || h[0] != '#' {
        return false;
    }
    let mut i: usize = 1;
    while i < h.len()
        invariant
            1 <= i <= h.len(),
            forall|j: int| 1 <= j < i ==> text::is_hex_digit(#[trigger] h@[j]),
        decreases h.len() - i,
    {
        if !text::is_hex_digit_exec(h[i]) {
            return false;
        }
        i = i + 1;
    }
    true
}

/// The `#RRGGBB` color of a Material role in the `default` variant.
pub fn role(ctx: &SchemeContext, name: &str) -> (r: Result<String, String>)
    ensures
        r matches Ok(h) ==> role_of(*ctx, name@) == Ok::<Seq<char>, Seq<char>>(h@),
        r matches Err(e) ==> role_of(*ctx, name@) == Err::<Seq<char>, Seq<char>>(e@),
{
    let found: Option<&String> = match ctx.entry(name, "default") {
        Some(e) => match &e.hex {
            Some(h) => Some(h),
            None => match &e.color {
                Some(c) => Some(c),
                None => None,
            },
        },
        None => None,
    };
    match found {
        None => {
            let mut msg = String::from_str("Missing Material role: ");
            msg.append(name);
            Err(msg)
        },
        Some(h) => {
            let hv = text::chars_of(h.as_str());
            if valid_role_hex_exec(&hv) {
                let short = text::slice_of(&hv, 0, 7);
                assert(short@ =~= hv@.take(7));
                Ok(text::string_of(&short))
            } else {
                let mut msg = String::from_str("Invalid Material color: ");
                msg.append(name);
                Err(msg)
            }
        },
    }
}

pub open spec fn outline_role_name(source: OutlineSource) -> Seq<char> {
    match source {
        OutlineSource::Automatic | OutlineSource::Outline => "outline"@,
        OutlineSource::Primary => "primary"@,
        OutlineSource::OutlineVariant => "outline_variant"@,
    }
}

/// The Material role that an outline source follows.
pub fn outline_role(source: OutlineSource) -> (r: &'static str)
    ensures
        r@ == outline_role_name(source),
{
    match source {
        OutlineSource::Automatic | OutlineSource::Outline => "outline",
        OutlineSource::Primary => "primary",
        OutlineSource::OutlineVariant => "outline_variant",
    }
}

pub type PatchV = (Seq<char>, Seq<char>, Seq<char>);

fn patch(group: &str, key: &str, value: String) -> (r: IniPatch)
    ensures
        r.group@ == group@,
        r.key@ == key@,
        r.value@ == value@,
{
    IniPatch { group: String::from_str(group), key: String::from_str(key), value }
}

/// The Klassy patches: the active window outline follows `primary`, and the
/// titlebar opacity is set where one is chosen.
pub open spec fn klassy_patches_of(ctx: SchemeContext, s: KdeIntegrationSettings) -> Result<
    Seq<PatchV>,
    Seq<char>,
> {
    if !s.klassy.enabled {
        Ok(Seq::empty())
    } else {
        let opacity: Seq<PatchV> = match s.klassy.titlebar_opacity {
            Some(o) => seq![
                ("TitleBarOpacity"@, "TitleBarOpacityActive"@, dec(o as nat)),
                ("TitleBarOpacity"@, "OverrideTitleBarOpacityActive"@, "true"@),
            ],
            None => Seq::empty(),
        };
        if s.klassy.outline_sync {
            match role_of(ctx, "primary"@) {
                Ok(primary) => Ok(
                    seq![
                        ("WindowOutlineStyle"@, "WindowOutlineStyleActive"@, "WindowOutlineCustomColor"@),
                        ("WindowOutlineStyle"@, "WindowOutlineCustomColorActive"@, primary),
                        ("WindowOutlineStyle"@, "WindowOutlineCustomColorOpacityActive"@, "100"@),
                    ] + opacity,
                ),
                Err(e) => Err(e),
            }
        } else {
            Ok(opacity)
        }
    }
}

pub open spec fn ini_patches_view(ps: Seq<IniPatch>) -> Seq<PatchV> {
    ps.map_values(|p: IniPatch| (p.group@, p.key@, p.value@))
}

pub fn klassy_patches(ctx: &SchemeContext, settings: &KdeIntegrationSettings) -> (r: Result<
    Vec<IniPatch>,
    String,
>)
    ensures
        r matches Ok(ps) ==> klassy_patches_of(*ctx, *settings) == Ok::<Seq<PatchV>, Seq<char>>(
            ini_patches_view(ps@),
        ),
        r matches Err(e) ==> klassy_patches_of(*ctx, *settings) == Err::<Seq<PatchV>, Seq<char>>(
            e@,
        ),
{
    let mut patches: Vec<IniPatch> = Vec::new();
    if !settings.klassy.enabled {
        assert(ini_patches_view(patches@) =~= Seq::<PatchV>::empty());
        return Ok(patches);
    }
    if settings.klassy.outline_sync {
        let primary = role(ctx, "primary")?;
        patches.push(
            patch("WindowOutlineStyle", "WindowOutlineStyleActive", String::from_str("WindowOutlineCustomColor")),
        );
        patches.push(patch("WindowOutlineStyle", "WindowOutlineCustomColorActive", primary));
        patches.push(
            patch("WindowOutlineStyle", "WindowOutlineCustomColorOpacityActive", String::from_str("100")),
        );
    }
    let ghost before = ini_patches_view(patches@);
    match settings.klassy.titlebar_opacity {
        Some(o) => {
            let mut digits: Vec<char> = Vec::new();
            text::push_dec(&mut digits, o as u64);
            assert(digits@ =~= dec(o as nat));
            patches.push(patch("TitleBarOpacity", "TitleBarOpacityActive", text::string_of(&digits)));
            patches.push(patch("TitleBarOpacity", "OverrideTitleBarOpacityActive", String::from_str("true")));
        },
        None => {},
    }
    assert(ini_patches_view(patches@) =~= klassy_patches_of(*ctx, *settings)->Ok_0);
    Ok(patches)
}

pub open spec fn byte_at(h: Seq<char>, i: int) -> nat {
    text::hex_value(h[i]) * 16 + text::hex_value(h[i + 1])
}

/// `r,g,b` in decimal for a `#RRGGBB` color.
pub open spec fn decimal_rgb(h: Seq<char>) -> Seq<char> {
    dec(byte_at(h, 1)) + ","@ + dec(byte_at(h, 3)) + ","@ + dec(byte_at(h, 5))
}

/// The Rounded Corners patches: both outline colors follow the chosen role and
/// use the custom color rather than the palette.
pub open spec fn rounded_patches_of(ctx: SchemeContext, s: KdeIntegrationSettings) -> Result<
    Seq<PatchV>,
    Seq<char>,
> {
    if !s.rounded_corners.enabled || !s.rounded_corners.outline_sync {
        Ok(Seq::empty())
    } else {
        match role_of(ctx, outline_role_name(s.rounded_corners.outline_source)) {
            Ok(hex) => {
                let rgb = decimal_rgb(hex);
                Ok(
                    seq![
                        ("Round-Corners"@, "OutlineColor"@, rgb),
                        ("Round-Corners"@, "InactiveOutlineColor"@, rgb),
                        ("Round-Corners"@, "ActiveOutlineUsePalette"@, "false"@),
                        ("Round-Corners"@, "InactiveOutlineUsePalette"@, "false"@),
                        ("Round-Corners"@, "ActiveOutlineUseCustom"@, "true"@),
                        ("Round-Corners"@, "InactiveOutlineUseCustom"@, "true"@),
                    ],
                )
            },
            Err(e) => Err(e),
        }
    }
}

fn push_byte_dec(out: &mut Vec<char>, h: &[char], i: usize)
    requires
        i + 1 < h.len(),
    ensures
        final(out)@ == old(out)@ + dec(byte_at(h@, i as int)),
{
    let b = (text::hex_value_exec(h[i]) as u64) * 16 + (text::hex_value_exec(h[i + 1]) as u64);
    text::push_dec(out, b);
}

pub fn rounded_patches(ctx: &SchemeContext, settings: &KdeIntegrationSettings) -> (r: Result<
    Vec<IniPatch>,
    String,
>)
    ensures
        r matches Ok(ps) ==> rounded_patches_of(*ctx, *settings) == Ok::<Seq<PatchV>, Seq<char>>(
            ini_patches_view(ps@),
        ),
        r matches Err(e) ==> rounded_patches_of(*ctx, *settings) == Err::<Seq<PatchV>, Seq<char>>(
            e@,
        ),
{
    if !settings.rounded_corners.enabled || !settings.rounded_corners.outline_sync {
        let v: Vec<IniPatch> = Vec::new();
        assert(ini_patches_view(v@) =~= Seq::<PatchV>::empty());
        return Ok(v);
    }
    let hex = role(ctx, outline_role(settings.rounded_corners.outline_source))?;
    let h = text::chars_of(hex.as_str());
    let mut rgb: Vec<char> = Vec::new();
    push_byte_dec(&mut rgb, &h, 1);
    rgb.push(',');
    push_byte_dec(&mut rgb, &h, 3);
    rgb.push(',');
    push_byte_dec(&mut rgb, &h, 5);
    proof {
        reveal_strlit(",");
    }
    assert(rgb@ =~= decimal_rgb(h@));
    let mut v: Vec<IniPatch> = Vec::new();
    v.push(patch("Round-Corners", "OutlineColor", text::string_of(&rgb)));
    v.push(patch("Round-Corners", "InactiveOutlineColor", text::string_of(&rgb)));
    v.push(patch("Round-Corners", "ActiveOutlineUsePalette", String::from_str("false")));
    v.push(patch("Round-Corners", "InactiveOutlineUsePalette", String::from_str("false")));
    v.push(patch("Round-Corners", "ActiveOutlineUseCustom", String::from_str("true")));
    v.push(patch("Round-Corners", "InactiveOutlineUseCustom", String::from_str("true")));
    assert(ini_patches_view(v@) =~= rounded_patches_of(*ctx, *settings)->Ok_0);
    Ok(v)
}

/// Whether a patched configuration must be written: only where there are
/// patches and they change the file.
pub fn needs_write(patch_count: usize, content: &str, next: &str) -> (r: bool)
    ensures
        r == (patch_count > 0 && content@ != next@),
{
    patch_count > 0 && !crate::context::str_eq(content, next)
}

// ── Applying the integrations ────────────────────────────────────────────────

/// One of the optional integrations.
#[derive(Debug, Clone, Copy, PartialEq, Eq, Structural)]
pub enum Integration {
    Klassy,
    RoundedCorners,
}

/// A step of applying the integrations: patch one, or report a warning.
#[derive(Debug)]
pub enum IntegrationStep {
    Patch(Integration),
    Warn(String),
}

/// Whether applying the integrations has anything to do: with both turned
/// off, nothing is detected and no file is written.
pub fn integrations_wanted(settings: &KdeIntegrationSettings) -> (r: bool)
    ensures
        r == (settings.klassy.enabled || settings.rounded_corners.enabled),
{
    settings.klassy.enabled || settings.rounded_corners.enabled
}

/// The step for one integration: none where it is turned off, its patch
/// where it is supported, else the detection's message as a warning.
pub open spec fn step_for(enabled: bool, kind: Integration, d: IntegrationDetection) -> Seq<StepV> {
    if !enabled {
        Seq::empty()
    } else if d.supported {
        seq![StepV::Patch(kind)]
    } else {
        seq![StepV::Warn(d.message@)]
    }
}

pub enum StepV {
    Patch(Integration),
    Warn(Seq<char>),
}

pub open spec fn steps_view(v: Seq<IntegrationStep>) -> Seq<StepV> {
    v.map_values(|s: IntegrationStep| match s {
        IntegrationStep::Patch(k) => StepV::Patch(k),
        IntegrationStep::Warn(w) => StepV::Warn(w@),
    })
}

/// What applying the integrations does, Klassy first: a turned-off
/// integration is never patched, and an unsupported one only warns.
pub open spec fn integration_plan_of(s: KdeIntegrationSettings, d: KdeIntegrationDetection) -> Seq<StepV> {
    step_for(s.klassy.enabled, Integration::Klassy, d.klassy) + step_for(
        s.rounded_corners.enabled,
        Integration::RoundedCorners,
        d.rounded_corners,
    )
}

fn push_step(v: &mut Vec<IntegrationStep>, enabled: bool, kind: Integration, d: &IntegrationDetection)
    ensures
        steps_view(final(v)@) == steps_view(old(v)@) + step_for(enabled, kind, *d),
{
    let ghost before = v@;
    if enabled {
        if d.supported {
            v.push(IntegrationStep::Patch(kind));
        } else {
            v.push(IntegrationStep::Warn(d.message.clone()));
        }
    }
    assert(steps_view(v@) =~= steps_view(before) + step_for(enabled, kind, *d));
}

pub fn integration_plan(settings: &KdeIntegrationSettings, detection: &KdeIntegrationDetection) -> (r: Vec<IntegrationStep>)
    ensures
        steps_view(r@) == integration_plan_of(*settings, *detection),
{
    let mut v: Vec<IntegrationStep> = Vec::new();
    assert(steps_view(v@) =~= Seq::<StepV>::empty());
    push_step(&mut v, settings.klassy.enabled, Integration::Klassy, &detection.klassy);
    push_step(&mut v, settings.rounded_corners.enabled, Integration::RoundedCorners, &detection.rounded_corners);
    v
}

/// The D-Bus signal that makes Klassy reread its colors.
pub open spec fn klassy_color_signal() -> Seq<char> {
    "gdbus emit --session --object-path /KlassyDecoration --signal org.kde.Klassy.Style.updateDecorationColorCache"@
}

/// The D-Bus signal that makes KWin reload its configuration.
pub open spec fn kwin_reload_signal() -> Seq<char> {
    "gdbus emit --session --object-path /KWin --signal org.kde.KWin.reloadConfig"@
}

/// The D-Bus call that reconfigures the Rounded Corners effect.
pub open spec fn rounded_reconfigure_call() -> Seq<char> {
    "gdbus call --session --dest org.kde.KWin --object-path /Effects --method org.kde.kwin.Effects.reconfigureEffect kwin4_effect_shapecorners"@
}

pub open spec fn commands_view(v: Seq<String>) -> Seq<Seq<char>> {
    v.map_values(|s: String| s@)
}

/// The commands run after an integration's patches: none unless its file
/// was written; for Klassy its color signal, then KWin's reload; for
/// Rounded Corners the effect's reconfiguration, only where it is loaded.
pub open spec fn after_write_of(kind: Integration, written: bool, active: bool) -> Seq<Seq<char>> {
    match kind {
        Integration::Klassy => if written {
            seq![klassy_color_signal(), kwin_reload_signal()]
        } else {
            Seq::empty()
        },
        Integration::RoundedCorners => if written && active {
            seq![rounded_reconfigure_call()]
        } else {
            Seq::empty()
        },
    }
}

pub fn after_write(kind: Integration, written: bool, active: bool) -> (r: Vec<String>)
    ensures
        commands_view(r@) == after_write_of(kind, written, active),
{
    let mut v: Vec<String> = Vec::new();
    match kind {
        Integration::Klassy => if written {
            v.push(String::from_str(
                "gdbus emit --session --object-path /KlassyDecoration --signal org.kde.Klassy.Style.updateDecorationColorCache",
            ));
            v.push(String::from_str("gdbus emit --session --object-path /KWin --signal org.kde.KWin.reloadConfig"));
        },
        Integration::RoundedCorners => if written && active {
            v.push(String::from_str(
                "gdbus call --session --dest org.kde.KWin --object-path /Effects --method org.kde.kwin.Effects.reconfigureEffect kwin4_effect_shapecorners",
            ));
        },
    }
    assert(commands_view(v@) =~= after_write_of(kind, written, active));
    v
}

/// The name that prefixes an integration's errors in the warnings.
pub open spec fn integration_label(kind: Integration) -> Seq<char> {
    match kind {
        Integration::Klassy => "Klassy"@,
        Integration::RoundedCorners => "Rounded Corners"@,
    }
}

/// The warning for an integration whose patching failed.
pub fn integration_failure(kind: Integration, error: &str) -> (r: String)
    ensures
        r@ == integration_label(kind) + ": "@ + error@,
{
    let mut out = match kind {
        Integration::Klassy => text::chars_of("Klassy"),
        Integration::RoundedCorners => text::chars_of("Rounded Corners"),
    };
    text::push_str(&mut out, ": ");
    text::push_str(&mut out, error);
    text::string_of(&out)
}

} // verus!
