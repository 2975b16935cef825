//! KDE Plasma color schemes and the wallpaper watcher's state.
//!
//! A generated scheme is an INI text whose color values are `r,g,b` triples;
//! the functions here compute that text from a scheme context, read and
//! update single values in it, and convert between `#RRGGBB` and `r,g,b`.
use vstd::prelude::*;
use crate::context::{ColorEntry, ColorRole, SchemeContext, find_role, find_variant, opt_view};
use crate::text;
use crate::text::{lines, byte_prefix, dec, hex2, hex_value, is_hex_digit, trim, utf8_len, utf8_width};

verus! {

// ── Service and watcher state ────────────────────────────────────────────────

/// The persisted state of the background wallpaper service.
#[derive(Debug, Clone)]
pub struct KdeServiceStatus {
    pub enabled: bool,
    pub run_in_background: bool,
    pub current_wallpaper: Option<String>,
    pub poll_interval_secs: u64,
    pub scheme_type: String,
    pub gtk_enabled: bool,
    pub gtk_dark: bool,
}

/// What the user chose when starting the watcher.
#[derive(Debug, Clone)]
pub struct KdeWatcherOptions {
    pub poll_interval_secs: u64,
    pub scheme_type: String,
    pub gtk_enabled: bool,
    pub gtk_dark: bool,
}

/// The watcher's state as the interface shows it.
#[derive(Debug, Clone)]
pub struct KdeWatcherSnapshot {
    pub enabled: bool,
    pub run_in_background: bool,
    pub current_wallpaper: Option<String>,
    pub last_handled_wallpaper: Option<String>,
    pub is_processing: bool,
    pub poll_interval_secs: u64,
    pub scheme_type: String,
    pub gtk_enabled: bool,
    pub gtk_dark: bool,
    pub status_message: String,
    pub last_error: Option<String>,
}

/// One editable color of the generated scheme, as `#RRGGBB`.
#[derive(Debug, Clone)]
pub struct KdeColorValue {
    pub key: String,
    pub hex: String,
}

pub open spec fn default_scheme_type_text() -> Seq<char> {
    "Tinted Smart"@
}

pub open spec fn stopped_message() -> Seq<char> {
    "Service stopped."@
}

pub fn default_poll_interval_secs() -> (r: u64)
    ensures
        r == 10,
{
    10
}

pub fn default_scheme_type() -> (r: String)
    ensures
        r@ == default_scheme_type_text(),
{
    String::from_str("Tinted Smart")
}

pub fn default_gtk_dark() -> (r: bool)
    ensures
        r,
{
    true
}

impl Default for KdeServiceStatus {
    fn default() -> (r: Self)
        ensures
            !r.enabled,
            !r.run_in_background,
            r.current_wallpaper is None,
            r.poll_interval_secs == 10,
            r.scheme_type@ == default_scheme_type_text(),
            !r.gtk_enabled,
            r.gtk_dark,
    {
        KdeServiceStatus {
            enabled: false,
            run_in_background: false,
            current_wallpaper: None,
            poll_interval_secs: default_poll_interval_secs(),
            scheme_type: default_scheme_type(),
            gtk_enabled: false,
            gtk_dark: default_gtk_dark(),
        }
    }
}

impl Default for KdeWatcherSnapshot {
    fn default() -> (r: Self)
        ensures
            !r.enabled,
            !r.run_in_background,
            r.current_wallpaper is None,
            r.last_handled_wallpaper is None,
            !r.is_processing,
            r.poll_interval_secs == 10,
            r.scheme_type@ == default_scheme_type_text(),
            !r.gtk_enabled,
            r.gtk_dark,
            r.status_message@ == stopped_message(),
            r.last_error is None,
    {
        KdeWatcherSnapshot {
            enabled: false,
            run_in_background: false,
            current_wallpaper: None,
            last_handled_wallpaper: None,
            is_processing: false,
            poll_interval_secs: default_poll_interval_secs(),
            scheme_type: default_scheme_type(),
            gtk_enabled: false,
            gtk_dark: default_gtk_dark(),
            status_message: String::from_str("Service stopped."),
            last_error: None,
        }
    }
}

// ── `#RRGGBB` and `r,g,b` ────────────────────────────────────────────────────

/// `str::trim_start_matches('#')`.
pub open spec fn strip_hashes(s: Seq<char>) -> Seq<char>
    decreases s.len(),
{
    if s.len() > 0 && s[0] == '#' {
        strip_hashes(s.drop_first())
    } else {
        s
    }
}

/// `u8::from_str_radix(t, 16).unwrap_or(0)` on a text of two one-byte
/// characters: two hexadecimal digits, or `+` and one digit; anything else is 0.
pub open spec fn hex_pair(a: char, b: char) -> u8 {
    if is_hex_digit(a) && is_hex_digit(b) {
        (hex_value(a) * 16 + hex_value(b)) as u8
    } else if a == '+' && is_hex_digit(b) {
        hex_value(b) as u8
    } else {
        0
    }
}

/// The values of the first `n` two-byte slices of `t`. A slice is two one-byte
/// characters or one two-byte character (which parses to nothing, so 0);
/// `None` where a slice boundary would fall inside a character.
pub open spec fn byte_pairs(t: Seq<char>, n: nat) -> Option<Seq<u8>>
    decreases n,
{
    if n == 0 {
        Some(Seq::empty())
    } else if t.len() >= 2 && utf8_width(t[0]) == 1 && utf8_width(t[1]) == 1 {
        match byte_pairs(t.skip(2), (n - 1) as nat) {
            Some(r) => Some(seq![hex_pair(t[0], t[1])] + r),
            None => None,
        }
    } else if t.len() >= 1 && utf8_width(t[0]) == 2 {
        match byte_pairs(t.skip(1), (n - 1) as nat) {
            Some(r) => Some(seq![0u8] + r),
            None => None,
        }
    } else {
        None
    }
}

/// The three channels that `hex_to_rgb` reads from `hex`, where it can read them.
pub open spec fn rgb_channels(hex: Seq<char>) -> Option<Seq<u8>> {
    byte_pairs(strip_hashes(hex), 3)
}

/// `hex_to_rgb` does not panic on `hex`.
pub open spec fn rgb_readable(hex: Seq<char>) -> bool {
    rgb_channels(hex) is Some
}

/// `r,g,b` in decimal.
pub open spec fn rgb_text(r: u8, g: u8, b: u8) -> Seq<char> {
    dec(r as nat) + ","@ + dec(g as nat) + ","@ + dec(b as nat)
}

/// `hex_to_rgb(hex)` formatted as `r,g,b`.
pub open spec fn rgb_str_of(hex: Seq<char>) -> Seq<char> {
    let c = rgb_channels(hex)->0;
    rgb_text(c[0], c[1], c[2])
}

/// Reads one two-byte slice at `pos`.
fn read_pair(v: &Vec<char>, pos: usize, Ghost(k): Ghost<nat>) -> (r: (u8, usize))
    requires
        k >= 1,
        pos <= v.len(),
        byte_pairs(v@.skip(pos as int), k) is Some,
    ensures
        pos < r.1 <= v.len(),
        byte_pairs(v@.skip(r.1 as int), (k - 1) as nat) is Some,
        byte_pairs(v@.skip(pos as int), k)->0 == seq![r.0] + byte_pairs(
            v@.skip(r.1 as int),
            (k - 1) as nat,
        )->0,
{
    let ghost t = v@.skip(pos as int);
    if pos + 1 < v.len() && text::utf8_width_exec(v[pos]) == 1 && text::utf8_width_exec(v[pos + 1])
        == 1 {
        assert(t[0] == v@[pos as int] && t[1] == v@[pos + 1]);
        assert(t.skip(2) =~= v@.skip(pos + 2));
        let a = v[pos];
        let b = v[pos + 1];
        let value: u8 = if text::is_hex_digit_exec(a) && text::is_hex_digit_exec(b) {
            text::hex_value_exec(a) * 16 + text::hex_value_exec(b)
        } else if a == '+' && text::is_hex_digit_exec(b) {
            text::hex_value_exec(b)
        } else {
            0
        };
        (value, pos + 2)
    } else {
        assert(t.len() >= 1 && utf8_width(t[0]) == 2);
        assert(t[0] == v@[pos as int]);
        assert(t.skip(1) =~= v@.skip(pos + 1));
        (0, pos + 1)
    }
}

/// `hex_to_rgb`: the channels after any leading `#`, each read from a two-byte
/// slice.
pub fn hex_to_rgb(hex: &str) -> (r: (u8, u8, u8))
    requires
        rgb_readable(hex@),
    ensures
        seq![r.0, r.1, r.2] == rgb_channels(hex@)->0,
{
    let v = text::chars_of(hex);
    let mut i: usize = 0;
    assert(v@.skip(0) =~= v@);
    while i < v.len() && v[i] == '#'
        invariant
            i <= v.len(),
            v@ == hex@,
            strip_hashes(v@.skip(i as int)) == strip_hashes(hex@),
        decreases v.len() - i,
    {
        assert(v@.skip(i as int).drop_first() =~= v@.skip(i + 1));
        i = i + 1;
    }
    assert(strip_hashes(v@.skip(i as int)) == v@.skip(i as int));
    let (r, p1) = read_pair(&v, i, Ghost(3));
    let (g, p2) = read_pair(&v, p1, Ghost(2));
    let (b, p3) = read_pair(&v, p2, Ghost(1));
    assert(byte_pairs(v@.skip(p3 as int), 0) == Some(Seq::<u8>::empty()));
    assert(seq![r, g, b] =~= rgb_channels(hex@)->0);
    (r, g, b)
}

fn push_rgb(out: &mut Vec<char>, r: u8, g: u8, b: u8)
    ensures
        final(out)@ == old(out)@ + rgb_text(r, g, b),
{
    text::push_dec(out, r as u64);
    out.push(',');
    text::push_dec(out, g as u64);
    out.push(',');
    text::push_dec(out, b as u64);
    proof {
        reveal_strlit(",");
    }
    assert(final(out)@ =~= old(out)@ + rgb_text(r, g, b));
}

/// `rgb_str`: a color as KDE's `r,g,b`.
pub fn rgb_str(hex: &str) -> (r: String)
    requires
        rgb_readable(hex@),
    ensures
        r@ == rgb_str_of(hex@),
{
    let (r, g, b) = hex_to_rgb(hex);
    let mut out: Vec<char> = Vec::new();
    push_rgb(&mut out, r, g, b);
    assert(out@ =~= rgb_str_of(hex@));
    text::string_of(&out)
}

/// The input that `hex_to_rgb_string` accepts: seven bytes with `#` first.
pub open spec fn hex_form(value: Seq<char>) -> bool {
    utf8_len(value) == 7 && value.len() > 0 && value[0] == '#'
}

/// `hex_to_rgb_string` does not panic on `hex`.
pub open spec fn hex_input_readable(hex: Seq<char>) -> bool {
    hex_form(trim(hex)) ==> rgb_readable(trim(hex))
}

pub open spec fn hex_to_rgb_string_of(hex: Seq<char>) -> Result<Seq<char>, Seq<char>> {
    if hex_form(trim(hex)) {
        Ok(rgb_str_of(trim(hex)))
    } else {
        Err("Color must use #RRGGBB format"@)
    }
}

/// `hex_to_rgb_string`: a trimmed `#RRGGBB` value as `r,g,b`.
pub fn hex_to_rgb_string(hex: &str) -> (r: Result<String, String>)
    requires
        hex_input_readable(hex@),
    ensures
        r matches Ok(s) ==> hex_to_rgb_string_of(hex@) == Ok::<Seq<char>, Seq<char>>(s@),
        r matches Err(e) ==> hex_to_rgb_string_of(hex@) == Err::<Seq<char>, Seq<char>>(e@),
{
    let v = text::chars_of(hex);
    let t = text::trim_exec(&v);
    if t.len() > 1000 || text::utf8_len_exec(&t) != 7 || t.len() == 0 || t[0] != '#' {
        proof {
            if t.len() > 1000 {
                lemma_utf8_len_lower(t@);
            }
        }
        return Err(String::from_str("Color must use #RRGGBB format"));
    }
    let ts = text::string_of(&t);
    Ok(rgb_str(ts.as_str()))
}

/// Every character takes at least one byte.
proof fn lemma_utf8_len_lower(s: Seq<char>)
    ensures
        utf8_len(s) >= s.len(),
    decreases s.len(),
{
    if s.len() > 0 {
        lemma_utf8_len_lower(s.drop_last());
    }
}

/// The `u8` values that `part.trim().parse::<u8>().ok()` keeps, in order.
pub open spec fn parsed_channels(parts: Seq<Seq<char>>) -> Seq<nat>
    decreases parts.len(),
{
    if parts.len() == 0 {
        Seq::empty()
    } else {
        let rest = parsed_channels(parts.drop_last());
        match text::parse_unsigned(trim(parts.last()), 255) {
            Some(v) => rest.push(v),
            None => rest,
        }
    }
}

/// `rgb_to_hex`: `#RRGGBB` in upper case when exactly three parts parse,
/// `#000000` otherwise.
pub open spec fn rgb_to_hex_of(rgb: Seq<char>) -> Seq<char> {
    let p = parsed_channels(text::split_char(rgb, ','));
    if p.len() != 3 {
        "#000000"@
    } else {
        seq!['#'] + hex2(p[0] as u8) + hex2(p[1] as u8) + hex2(p[2] as u8)
    }
}

pub fn rgb_to_hex(rgb: &str) -> (r: String)
    ensures
        r@ == rgb_to_hex_of(rgb@),
{
    let v = text::chars_of(rgb);
    let parts = text::split_char_exec(&v, ',');
    let ghost pv = text::split_char(rgb@, ',');
    let mut vals: Vec<u8> = Vec::new();
    let mut i: usize = 0;
    while i < parts.len()
        invariant
            i <= parts.len(),
            text::views(parts@) == pv,
            vals@.map_values(|x: u8| x as nat) == parsed_channels(pv.take(i as int)),
            forall|j: int| 0 <= j < vals.len() ==> vals@[j] <= 255,
        decreases parts.len() - i,
    {
        assert(pv.take(i + 1).drop_last() =~= pv.take(i as int));
        assert(pv.take(i + 1).last() == parts@[i as int]@);
        let t = text::trim_exec(&parts[i]);
        match text::parse_unsigned_exec(&t, 255) {
            Some(x) => {
                vals.push(x as u8);
                assert(vals@.map_values(|x: u8| x as nat) =~= parsed_channels(pv.take(i as int)).push(
                    x as nat,
                ));
            },
            None => {},
        }
        i = i + 1;
    }
    assert(pv.take(parts.len() as int) =~= pv);
    if vals.len() != 3 {
        return String::from_str("#000000");
    }
    let ghost p = parsed_channels(pv);
    assert(p[0] == vals@[0] as nat && p[1] == vals@[1] as nat && p[2] == vals@[2] as nat) by {
        assert(vals@.map_values(|x: u8| x as nat)[0] == vals@[0] as nat);
        assert(vals@.map_values(|x: u8| x as nat)[1] == vals@[1] as nat);
        assert(vals@.map_values(|x: u8| x as nat)[2] == vals@[2] as nat);
    }
    let mut out: Vec<char> = Vec::new();
    out.push('#');
    text::push_hex2(&mut out, vals[0]);
    text::push_hex2(&mut out, vals[1]);
    text::push_hex2(&mut out, vals[2]);
    assert(out@ =~= rgb_to_hex_of(rgb@));
    text::string_of(&out)
}


// ── Reading colors from a scheme context ─────────────────────────────────────

/// The first non-empty value among a variant's `color` and `hex` keys.
pub open spec fn entry_text(e: ColorEntry) -> Option<Seq<char>> {
    if e.color is Some && e.color->0@.len() > 0 {
        Some(e.color->0@)
    } else if e.hex is Some && e.hex->0@.len() > 0 {
        Some(e.hex->0@)
    } else {
        None
    }
}

pub open spec fn variant_text(role: ColorRole, variant: Seq<char>) -> Option<Seq<char>> {
    match find_variant(role.variants@, variant) {
        Some(e) => entry_text(e),
        None => None,
    }
}

/// The value of the first variant, in the order requested, `default`, `dark`,
/// `light`, that has one.
pub open spec fn picked_text(ctx: SchemeContext, name: Seq<char>, variant: Seq<char>) -> Option<
    Seq<char>,
> {
    match find_role(ctx.roles@, name) {
        Some(role) => if variant_text(role, variant) is Some {
            variant_text(role, variant)
        } else if variant_text(role, "default"@) is Some {
            variant_text(role, "default"@)
        } else if variant_text(role, "dark"@) is Some {
            variant_text(role, "dark"@)
        } else {
            variant_text(role, "light"@)
        },
        None => None,
    }
}

/// A nine-byte `#RRGGBBAA` loses its alpha bytes; `None` where byte 7 falls
/// inside a character, where slicing panics.
pub open spec fn without_alpha(v: Seq<char>) -> Option<Seq<char>> {
    if utf8_len(v) == 9 && v.len() > 0 && v[0] == '#' {
        match byte_prefix(v.drop_first(), 6) {
            Some(p) => Some(seq!['#'] + p),
            None => None,
        }
    } else {
        Some(v)
    }
}

/// `get_color`: the picked value without alpha, or `#000000` where there is
/// none; `None` where the lookup panics.
pub open spec fn color_lookup(ctx: SchemeContext, name: Seq<char>, variant: Seq<char>) -> Option<
    Seq<char>,
> {
    match picked_text(ctx, name, variant) {
        Some(v) => without_alpha(v),
        None => Some("#000000"@),
    }
}

/// `get_color_or`: the fallback role's color where the role's own is `#000000`.
pub open spec fn fallback_lookup(
    ctx: SchemeContext,
    name: Seq<char>,
    fallback: Seq<char>,
    variant: Seq<char>,
) -> Option<Seq<char>> {
    match color_lookup(ctx, name, variant) {
        Some(r) => if r == "#000000"@ {
            color_lookup(ctx, fallback, variant)
        } else {
            Some(r)
        },
        None => None,
    }
}

pub open spec fn plain_found(ctx: SchemeContext, name: Seq<char>) -> bool {
    color_lookup(ctx, name, "default"@) is Some
}

pub open spec fn plain_readable(ctx: SchemeContext, name: Seq<char>) -> bool {
    plain_found(ctx, name) && rgb_readable(color_lookup(ctx, name, "default"@)->0)
}

pub open spec fn plain_rgb(ctx: SchemeContext, name: Seq<char>) -> Seq<char> {
    rgb_str_of(color_lookup(ctx, name, "default"@)->0)
}

pub open spec fn fallback_found(ctx: SchemeContext, name: Seq<char>, fallback: Seq<char>) -> bool {
    fallback_lookup(ctx, name, fallback, "default"@) is Some
}

pub open spec fn fallback_readable(ctx: SchemeContext, name: Seq<char>, fallback: Seq<char>) -> bool {
    fallback_found(ctx, name, fallback) && rgb_readable(
        fallback_lookup(ctx, name, fallback, "default"@)->0,
    )
}

pub open spec fn fallback_rgb(ctx: SchemeContext, name: Seq<char>, fallback: Seq<char>) -> Seq<
    char,
> {
    rgb_str_of(fallback_lookup(ctx, name, fallback, "default"@)->0)
}

fn entry_text_exec(e: &ColorEntry) -> (r: Option<&String>)
    ensures
        r matches Some(s) ==> entry_text(*e) == Some(s@),
        r is None ==> entry_text(*e) is None,
{
    if let Some(c) = &e.color {
        if !c.as_str().is_empty() {
            return Some(c);
        }
    }
    if let Some(h) = &e.hex {
        if !h.as_str().is_empty() {
            return Some(h);
        }
    }
    None
}

fn variant_text_exec<'a>(role: &'a ColorRole, variant: &str) -> (r: Option<&'a String>)
    ensures
        r matches Some(s) ==> variant_text(*role, variant@) == Some(s@),
        r is None ==> variant_text(*role, variant@) is None,
{
    match crate::context::find_variant_exec(&role.variants, variant) {
        Some(e) => entry_text_exec(e),
        None => None,
    }
}

fn strip_alpha(val: &str) -> (r: String)
    requires
        without_alpha(val@) is Some,
    ensures
        Some(r@) == without_alpha(val@),
{
    let v = text::chars_of(val);
    if v.len() <= 9 && v.len() > 0 && text::utf8_len_exec(&v) == 9 && v[0] == '#' {
        let rest = text::slice_of(&v, 1, v.len());
        assert(rest@ =~= val@.drop_first());
        let p = text::byte_prefix_exec(&rest, 6);
        let mut out: Vec<char> = Vec::new();
        out.push('#');
        text::push_all(&mut out, &p);
        assert(out@ =~= seq!['#'] + p@);
        text::string_of(&out)
    } else {
        proof {
            if v.len() > 9 {
                lemma_utf8_len_lower(v@);
            }
        }
        text::string_of(&v)
    }
}

/// `get_color`: a role's color for `variant`, falling back to `default`,
/// `dark` and `light`, without alpha; `#000000` where the role has none.
pub fn get_color(ctx: &SchemeContext, name: &str, variant: &str) -> (r: String)
    requires
        color_lookup(*ctx, name@, variant@) is Some,
    ensures
        Some(r@) == color_lookup(*ctx, name@, variant@),
{
    let picked: Option<&String> = match crate::context::find_role_exec(&ctx.roles, name) {
        None => None,
        Some(role) => {
            let a = variant_text_exec(role, variant);
            if a.is_some() {
                a
            } else {
                let b = variant_text_exec(role, "default");
                if b.is_some() {
                    b
                } else {
                    let c = variant_text_exec(role, "dark");
                    if c.is_some() {
                        c
                    } else {
                        variant_text_exec(role, "light")
                    }
                }
            }
        },
    };
    match picked {
        None => String::from_str("#000000"),
        Some(val) => strip_alpha(val.as_str()),
    }
}

/// `get_color_or`: the color of `name`, or of `fallback` where that is `#000000`.
pub fn get_color_or(ctx: &SchemeContext, name: &str, fallback: &str, variant: &str) -> (r: String)
    requires
        fallback_lookup(*ctx, name@, fallback@, variant@) is Some,
    ensures
        Some(r@) == fallback_lookup(*ctx, name@, fallback@, variant@),
{
    let result = get_color(ctx, name, variant);
    if crate::context::str_eq(result.as_str(), "#000000") {
        get_color(ctx, fallback, variant)
    } else {
        result
    }
}

fn plain_color_rgb(ctx: &SchemeContext, name: &str) -> (r: String)
    requires
        plain_readable(*ctx, name@),
    ensures
        r@ == plain_rgb(*ctx, name@),
{
    let c = get_color(ctx, name, "default");
    rgb_str(c.as_str())
}

fn fallback_color_rgb(ctx: &SchemeContext, name: &str, fallback: &str) -> (r: String)
    requires
        fallback_readable(*ctx, name@, fallback@),
    ensures
        r@ == fallback_rgb(*ctx, name@, fallback@),
{
    let c = get_color_or(ctx, name, fallback, "default");
    rgb_str(c.as_str())
}

/// `key=value` and a line break.
fn push_kv(out: &mut Vec<char>, key: &str, value: &str)
    ensures
        final(out)@ == old(out)@ + kv(key@, value@),
{
    text::push_str(out, key);
    text::push_str(out, "=");
    text::push_str(out, value);
    text::push_str(out, "\n");
    assert(final(out)@ =~= old(out)@ + kv(key@, value@));
}

/// The scheme's color values, each as KDE's `r,g,b`.
pub struct SchemeColors {
    pub surface: String,
    pub on_surface: String,
    pub on_surface_variant: String,
    pub primary: String,
    pub on_primary: String,
    pub secondary: String,
    pub tertiary: String,
    pub error: String,
    pub surface_container: String,
    pub surface_container_high: String,
    pub surface_container_highest: String,
    pub surface_container_low: String,
    pub surface_dim: String,
    pub link: String,
    pub negative: String,
    pub neutral: String,
    pub positive: String,
    pub visited: String,
}

/// `get_color` reaches a value for every role that generation looks up, and
/// every value written to the scheme is one that `hex_to_rgb` can read.
pub open spec fn scheme_readable(ctx: SchemeContext) -> bool {
    &&& plain_readable(ctx, "primary"@)
    &&& plain_readable(ctx, "on_primary"@)
    &&& plain_found(ctx, "primary_container"@)
    &&& plain_found(ctx, "on_primary_container"@)
    &&& plain_readable(ctx, "secondary"@)
    &&& plain_found(ctx, "on_secondary"@)
    &&& plain_found(ctx, "secondary_container"@)
    &&& plain_found(ctx, "on_secondary_container"@)
    &&& plain_readable(ctx, "tertiary"@)
    &&& plain_found(ctx, "on_tertiary"@)
    &&& plain_found(ctx, "tertiary_container"@)
    &&& plain_readable(ctx, "surface"@)
    &&& plain_readable(ctx, "on_surface"@)
    &&& plain_found(ctx, "surface_variant"@)
    &&& plain_readable(ctx, "on_surface_variant"@)
    &&& plain_readable(ctx, "error"@)
    &&& plain_found(ctx, "on_error"@)
    &&& plain_found(ctx, "error_container"@)
    &&& plain_found(ctx, "outline"@)
    &&& plain_found(ctx, "outline_variant"@)
    &&& fallback_found(ctx, "inverse_surface"@, "surface_variant"@)
    &&& fallback_found(ctx, "inverse_on_surface"@, "on_surface"@)
    &&& fallback_readable(ctx, "surface_container"@, "surface"@)
    &&& fallback_readable(ctx, "surface_container_high"@, "surface_variant"@)
    &&& fallback_readable(ctx, "surface_container_highest"@, "surface_variant"@)
    &&& fallback_readable(ctx, "surface_container_low"@, "surface"@)
    &&& fallback_readable(ctx, "surface_dim"@, "surface"@)
    &&& fallback_found(ctx, "surface_bright"@, "surface_variant"@)
    &&& fallback_readable(ctx, "link"@, "primary"@)
    &&& fallback_readable(ctx, "negative"@, "error"@)
    &&& fallback_readable(ctx, "neutral"@, "tertiary"@)
    &&& fallback_readable(ctx, "positive"@, "secondary"@)
    &&& fallback_readable(ctx, "visited"@, "secondary"@)
}

fn scheme_colors(ctx: &SchemeContext) -> (c: SchemeColors)
    requires
        scheme_readable(*ctx),
    ensures
        c@ == rgb_texts_of(*ctx),
{
    SchemeColors {
        surface: plain_color_rgb(ctx, "surface"),
        on_surface: plain_color_rgb(ctx, "on_surface"),
        on_surface_variant: plain_color_rgb(ctx, "on_surface_variant"),
        primary: plain_color_rgb(ctx, "primary"),
        on_primary: plain_color_rgb(ctx, "on_primary"),
        secondary: plain_color_rgb(ctx, "secondary"),
        tertiary: plain_color_rgb(ctx, "tertiary"),
        error: plain_color_rgb(ctx, "error"),
        surface_container: fallback_color_rgb(ctx, "surface_container", "surface"),
        surface_container_high: fallback_color_rgb(ctx, "surface_container_high", "surface_variant"),
        surface_container_highest: fallback_color_rgb(ctx, "surface_container_highest", "surface_variant"),
        surface_container_low: fallback_color_rgb(ctx, "surface_container_low", "surface"),
        surface_dim: fallback_color_rgb(ctx, "surface_dim", "surface"),
        link: fallback_color_rgb(ctx, "link", "primary"),
        negative: fallback_color_rgb(ctx, "negative", "error"),
        neutral: fallback_color_rgb(ctx, "neutral", "tertiary"),
        positive: fallback_color_rgb(ctx, "positive", "secondary"),
        visited: fallback_color_rgb(ctx, "visited", "secondary"),
    }
}

/// `key=value` and a line break.
pub open spec fn kv(key: Seq<char>, value: Seq<char>) -> Seq<char> {
    key + "="@ + value + "\n"@
}

/// The keys of every `[Colors:*]` group, in the order they are written.
pub open spec fn group_keys() -> Seq<Seq<char>> {
    seq![
        "BackgroundAlternate"@,
        "BackgroundNormal"@,
        "DecorationFocus"@,
        "DecorationHover"@,
        "ForegroundActive"@,
        "ForegroundInactive"@,
        "ForegroundLink"@,
        "ForegroundNegative"@,
        "ForegroundNeutral"@,
        "ForegroundNormal"@,
        "ForegroundPositive"@,
        "ForegroundVisited"@,
    ]
}

/// `key=value` lines for the keys in order, each with the value at its position.
pub open spec fn kv_lines(keys: Seq<Seq<char>>, vals: Seq<Seq<char>>) -> Seq<char>
    decreases keys.len(),
{
    if keys.len() == 0 {
        Seq::empty()
    } else {
        kv_lines(keys.drop_last(), vals) + kv(keys.last(), vals[keys.len() - 1])
    }
}

/// A `[Colors:*]` group: its twelve keys with the given values, then a blank line.
pub open spec fn color_group(title: Seq<char>, v: Seq<Seq<char>>) -> Seq<char> {
    "["@ + title + "]\n"@ + kv_lines(group_keys(), v) + "\n"@
}

pub open spec fn str_views(v: Seq<&str>) -> Seq<Seq<char>> {
    v.map_values(|s: &str| s@)
}

fn push_color_group(out: &mut Vec<char>, title: &str, v: &Vec<&str>)
    requires
        v.len() == 12,
    ensures
        final(out)@ == old(out)@ + color_group(title@, str_views(v@)),
{
    let keys: Vec<&str> = vec![
        "BackgroundAlternate",
        "BackgroundNormal",
        "DecorationFocus",
        "DecorationHover",
        "ForegroundActive",
        "ForegroundInactive",
        "ForegroundLink",
        "ForegroundNegative",
        "ForegroundNeutral",
        "ForegroundNormal",
        "ForegroundPositive",
        "ForegroundVisited",
    ];
    let ghost kv_ = str_views(keys@);
    let ghost vv = str_views(v@);
    assert(kv_ =~= group_keys());
    let ghost s0 = out@;
    text::push_str(out, "[");
    text::push_str(out, title);
    text::push_str(out, "]\n");
    let ghost s1 = out@;
    let mut i: usize = 0;
    while i < 12
        invariant
            i <= 12,
            keys.len() == 12,
            v.len() == 12,
            kv_ == str_views(keys@),
            vv == str_views(v@),
            out@ == s1 + kv_lines(kv_.take(i as int), vv),
        decreases 12 - i,
    {
        push_kv(out, keys[i], v[i]);
        assert(kv_.take(i + 1).drop_last() =~= kv_.take(i as int));
        assert(kv_.take(i + 1).last() == keys@[i as int]@);
        assert(vv[i as int] == v@[i as int]@);
        i = i + 1;
    }
    assert(kv_.take(12) =~= kv_);
    text::push_str(out, "\n");
    assert(s1 =~= s0 + ("["@ + title@ + "]\n"@));
    assert(final(out)@ =~= old(out)@ + color_group(title@, vv));
}

/// The values written to a scheme, each as KDE's `r,g,b`.
pub struct RgbTexts {
    pub surface: Seq<char>,
    pub on_surface: Seq<char>,
    pub on_surface_variant: Seq<char>,
    pub primary: Seq<char>,
    pub on_primary: Seq<char>,
    pub secondary: Seq<char>,
    pub tertiary: Seq<char>,
    pub error: Seq<char>,
    pub surface_container: Seq<char>,
    pub surface_container_high: Seq<char>,
    pub surface_container_highest: Seq<char>,
    pub surface_container_low: Seq<char>,
    pub surface_dim: Seq<char>,
    pub link: Seq<char>,
    pub negative: Seq<char>,
    pub neutral: Seq<char>,
    pub positive: Seq<char>,
    pub visited: Seq<char>,
}

impl View for SchemeColors {
    type V = RgbTexts;

    open spec fn view(&self) -> RgbTexts {
        RgbTexts {
            surface: self.surface@,
            on_surface: self.on_surface@,
            on_surface_variant: self.on_surface_variant@,
            primary: self.primary@,
            on_primary: self.on_primary@,
            secondary: self.secondary@,
            tertiary: self.tertiary@,
            error: self.error@,
            surface_container: self.surface_container@,
            surface_container_high: self.surface_container_high@,
            surface_container_highest: self.surface_container_highest@,
            surface_container_low: self.surface_container_low@,
            surface_dim: self.surface_dim@,
            link: self.link@,
            negative: self.negative@,
            neutral: self.neutral@,
            positive: self.positive@,
            visited: self.visited@,
        }
    }
}

/// The values that generation picks from `ctx`.
pub open spec fn rgb_texts_of(ctx: SchemeContext) -> RgbTexts {
    RgbTexts {
        surface: plain_rgb(ctx, "surface"@),
        on_surface: plain_rgb(ctx, "on_surface"@),
        on_surface_variant: plain_rgb(ctx, "on_surface_variant"@),
        primary: plain_rgb(ctx, "primary"@),
        on_primary: plain_rgb(ctx, "on_primary"@),
        secondary: plain_rgb(ctx, "secondary"@),
        tertiary: plain_rgb(ctx, "tertiary"@),
        error: plain_rgb(ctx, "error"@),
        surface_container: fallback_rgb(ctx, "surface_container"@, "surface"@),
        surface_container_high: fallback_rgb(ctx, "surface_container_high"@, "surface_variant"@),
        surface_container_highest: fallback_rgb(ctx, "surface_container_highest"@, "surface_variant"@),
        surface_container_low: fallback_rgb(ctx, "surface_container_low"@, "surface"@),
        surface_dim: fallback_rgb(ctx, "surface_dim"@, "surface"@),
        link: fallback_rgb(ctx, "link"@, "primary"@),
        negative: fallback_rgb(ctx, "negative"@, "error"@),
        neutral: fallback_rgb(ctx, "neutral"@, "tertiary"@),
        positive: fallback_rgb(ctx, "positive"@, "secondary"@),
        visited: fallback_rgb(ctx, "visited"@, "secondary"@),
    }
}

/// The values of a group that follows the surface palette: its two
/// backgrounds, then the accents every such group shares.
pub open spec fn surface_group(alt: Seq<char>, normal: Seq<char>, c: RgbTexts) -> Seq<Seq<char>> {
    seq![
        alt,
        normal,
        c.primary,
        c.primary,
        c.primary,
        c.on_surface_variant,
        c.primary,
        c.error,
        c.tertiary,
        c.on_surface,
        c.primary,
        c.secondary,
    ]
}

/// The values of the selection group.
pub open spec fn selection_group(c: RgbTexts) -> Seq<Seq<char>> {
    seq![
        c.primary,
        c.primary,
        c.primary,
        c.primary,
        c.on_primary,
        c.on_primary,
        c.link,
        c.negative,
        c.neutral,
        c.on_primary,
        c.positive,
        c.visited,
    ]
}

pub open spec fn effects_text(c: RgbTexts) -> Seq<char> {
    "[ColorEffects:Disabled]\nColor="@ + c.on_surface_variant
        + "\nColorAmount=0.55\nColorEffect=3\nContrastAmount=0.65\nContrastEffect=1\nIntensityAmount=0.1\nIntensityEffect=2\n\n[ColorEffects:Inactive]\nChangeSelectionColor=true\nColor="@
        + c.surface
        + "\nColorAmount=0.025\nColorEffect=2\nContrastAmount=0.1\nContrastEffect=2\nEnable=false\nIntensityAmount=0\nIntensityEffect=0\n\n"@
}

pub open spec fn groups_text(c: RgbTexts) -> Seq<char> {
    color_group("Colors:Button"@, surface_group(c.surface_container_high, c.surface_container, c))
        + color_group("Colors:Complementary"@, surface_group(c.surface_container_high, c.surface, c))
        + color_group("Colors:Header"@, surface_group(c.surface_container, c.surface, c))
        + color_group("Colors:Header][Inactive"@, surface_group(c.surface_container, c.surface, c))
        + color_group("Colors:Selection"@, selection_group(c))
        + color_group("Colors:Tooltip"@, surface_group(c.surface_container_highest, c.surface_container_high, c))
        + color_group("Colors:View"@, surface_group(c.surface_container_low, c.surface, c))
        + color_group("Colors:Window"@, surface_group(c.surface_container, c.surface_container_low, c))
}

pub open spec fn closing_text(c: RgbTexts, name: Seq<char>) -> Seq<char> {
    "[General]\nColorScheme="@ + name + "\nName="@ + name
        + "\nshadeSortColumn=true\n\n[KDE]\ncontrast=4\n\n[WM]\nactiveBackground="@
        + c.surface_container + "\nactiveBlend="@ + c.primary + "\nactiveForeground="@
        + c.on_surface + "\ninactiveBackground="@ + c.surface_container_low
        + "\ninactiveBlend="@ + c.surface_dim + "\ninactiveForeground="@
        + c.on_surface_variant + "\nframe="@ + c.surface_container_low + "\n"@
}

/// The color scheme file written for `c` under the scheme name `name`.
pub open spec fn scheme_text(c: RgbTexts, name: Seq<char>) -> Seq<char> {
    effects_text(c) + groups_text(c) + closing_text(c, name)
}

fn push_effects(out: &mut Vec<char>, c: &SchemeColors)
    ensures
        final(out)@ == old(out)@ + effects_text(c@),
{
    text::push_str(out, "[ColorEffects:Disabled]\nColor=");
    text::push_str(out, c.on_surface_variant.as_str());
    text::push_str(
        out,
        "\nColorAmount=0.55\nColorEffect=3\nContrastAmount=0.65\nContrastEffect=1\nIntensityAmount=0.1\nIntensityEffect=2\n\n[ColorEffects:Inactive]\nChangeSelectionColor=true\nColor=",
    );
    text::push_str(out, c.surface.as_str());
    text::push_str(
        out,
        "\nColorAmount=0.025\nColorEffect=2\nContrastAmount=0.1\nContrastEffect=2\nEnable=false\nIntensityAmount=0\nIntensityEffect=0\n\n",
    );
    assert(final(out)@ =~= old(out)@ + effects_text(c@));
}

fn push_surface_group(out: &mut Vec<char>, title: &str, alt: &str, normal: &str, c: &SchemeColors)
    ensures
        final(out)@ == old(out)@ + color_group(title@, surface_group(alt@, normal@, c@)),
{
    let v: Vec<&str> = vec![
        alt,
        normal,
        c.primary.as_str(),
        c.primary.as_str(),
        c.primary.as_str(),
        c.on_surface_variant.as_str(),
        c.primary.as_str(),
        c.error.as_str(),
        c.tertiary.as_str(),
        c.on_surface.as_str(),
        c.primary.as_str(),
        c.secondary.as_str(),
    ];
    assert(str_views(v@) =~= surface_group(alt@, normal@, c@));
    push_color_group(out, title, &v);
}

fn push_groups(out: &mut Vec<char>, c: &SchemeColors)
    ensures
        final(out)@ == old(out)@ + groups_text(c@),
{
    let ghost s0 = out@;
    push_surface_group(out, "Colors:Button", c.surface_container_high.as_str(), c.surface_container.as_str(), c);
    push_surface_group(out, "Colors:Complementary", c.surface_container_high.as_str(), c.surface.as_str(), c);
    push_surface_group(out, "Colors:Header", c.surface_container.as_str(), c.surface.as_str(), c);
    push_surface_group(out, "Colors:Header][Inactive", c.surface_container.as_str(), c.surface.as_str(), c);
    let ghost s1 = out@;
    let sel: Vec<&str> = vec![
        c.primary.as_str(),
        c.primary.as_str(),
        c.primary.as_str(),
        c.primary.as_str(),
        c.on_primary.as_str(),
        c.on_primary.as_str(),
        c.link.as_str(),
        c.negative.as_str(),
        c.neutral.as_str(),
        c.on_primary.as_str(),
        c.positive.as_str(),
        c.visited.as_str(),
    ];
    assert(str_views(sel@) =~= selection_group(c@));
    push_color_group(out, "Colors:Selection", &sel);
    push_surface_group(out, "Colors:Tooltip", c.surface_container_highest.as_str(), c.surface_container_high.as_str(), c);
    push_surface_group(out, "Colors:View", c.surface_container_low.as_str(), c.surface.as_str(), c);
    push_surface_group(out, "Colors:Window", c.surface_container.as_str(), c.surface_container_low.as_str(), c);
    assert(final(out)@ =~= old(out)@ + groups_text(c@));
}

fn push_closing(out: &mut Vec<char>, c: &SchemeColors, name: &str)
    ensures
        final(out)@ == old(out)@ + closing_text(c@, name@),
{
    text::push_str(out, "[General]\nColorScheme=");
    text::push_str(out, name);
    text::push_str(out, "\nName=");
    text::push_str(out, name);
    text::push_str(out, "\nshadeSortColumn=true\n\n[KDE]\ncontrast=4\n\n[WM]\nactiveBackground=");
    text::push_str(out, c.surface_container.as_str());
    text::push_str(out, "\nactiveBlend=");
    text::push_str(out, c.primary.as_str());
    text::push_str(out, "\nactiveForeground=");
    text::push_str(out, c.on_surface.as_str());
    text::push_str(out, "\ninactiveBackground=");
    text::push_str(out, c.surface_container_low.as_str());
    text::push_str(out, "\ninactiveBlend=");
    text::push_str(out, c.surface_dim.as_str());
    text::push_str(out, "\ninactiveForeground=");
    text::push_str(out, c.on_surface_variant.as_str());
    text::push_str(out, "\nframe=");
    text::push_str(out, c.surface_container_low.as_str());
    text::push_str(out, "\n");
    assert(final(out)@ =~= old(out)@ + closing_text(c@, name@));
}

/// `generate_kde_colorscheme`: the full color scheme file for `ctx`, named
/// `scheme_name`.
pub fn generate_kde_colorscheme(ctx: &SchemeContext, scheme_name: &str) -> (r: String)
    requires
        scheme_readable(*ctx),
    ensures
        r@ == scheme_text(rgb_texts_of(*ctx), scheme_name@),
{
    let c = scheme_colors(ctx);
    let mut out: Vec<char> = Vec::new();
    push_effects(&mut out, &c);
    push_groups(&mut out, &c);
    push_closing(&mut out, &c, scheme_name);
    assert(out@ =~= scheme_text(c@, scheme_name@));
    text::string_of(&out)
}


// ── Single values of the scheme file ─────────────────────────────────────────

/// The scheme key an editable color stands for.
pub struct KdeColorMapping {
    pub key: &'static str,
    pub section: &'static str,
    pub property: &'static str,
}

pub open spec fn mapping_view(m: KdeColorMapping) -> (Seq<char>, Seq<char>, Seq<char>) {
    (m.key@, m.section@, m.property@)
}

/// The editable colors: interface key, scheme group and property.
pub open spec fn kde_color_mappings_of() -> Seq<(Seq<char>, Seq<char>, Seq<char>)> {
    seq![
        ("windowBackground"@, "Colors:Window"@, "BackgroundNormal"@),
        ("viewBackground"@, "Colors:View"@, "BackgroundNormal"@),
        ("button"@, "Colors:Button"@, "BackgroundNormal"@),
        ("selection"@, "Colors:Selection"@, "BackgroundNormal"@),
        ("foreground"@, "Colors:Window"@, "ForegroundNormal"@),
        ("link"@, "Colors:Window"@, "ForegroundLink"@),
        ("negative"@, "Colors:Window"@, "ForegroundNegative"@),
        ("neutral"@, "Colors:Window"@, "ForegroundNeutral"@),
        ("visited"@, "Colors:Window"@, "ForegroundVisited"@),
    ]
}

fn mapping(key: &'static str, section: &'static str, property: &'static str) -> (r: KdeColorMapping)
    ensures
        mapping_view(r) == (key@, section@, property@),
{
    KdeColorMapping { key, section, property }
}

pub fn kde_color_mappings() -> (r: Vec<KdeColorMapping>)
    ensures
        r@.map_values(|m: KdeColorMapping| mapping_view(m)) == kde_color_mappings_of(),
{
    let r = vec![
        mapping("windowBackground", "Colors:Window", "BackgroundNormal"),
        mapping("viewBackground", "Colors:View", "BackgroundNormal"),
        mapping("button", "Colors:Button", "BackgroundNormal"),
        mapping("selection", "Colors:Selection", "BackgroundNormal"),
        mapping("foreground", "Colors:Window", "ForegroundNormal"),
        mapping("link", "Colors:Window", "ForegroundLink"),
        mapping("negative", "Colors:Window", "ForegroundNegative"),
        mapping("neutral", "Colors:Window", "ForegroundNeutral"),
        mapping("visited", "Colors:Window", "ForegroundVisited"),
    ];
    assert(r@.map_values(|m: KdeColorMapping| mapping_view(m)) =~= kde_color_mappings_of());
    r
}

/// A trimmed line that opens a group: `[` first and `]` last.
pub open spec fn is_group_line(t: Seq<char>) -> bool {
    t.len() > 0 && t[0] == '[' && t.last() == ']'
}

pub open spec fn group_header(section: Seq<char>) -> Seq<char> {
    seq!['['] + section + seq![']']
}

/// `t.split_once('=')` has `key` before the `=`.
pub open spec fn has_key(t: Seq<char>, key: Seq<char>) -> bool {
    match text::find(t, seq!['=']) {
        Some(i) => t.take(i) == key,
        None => false,
    }
}

pub open spec fn value_after_eq(t: Seq<char>) -> Seq<char> {
    t.skip(text::find(t, seq!['='])->0 + 1)
}

/// The value of the first `property=` line of the group `section`, reading
/// the lines with the group state `in_section`.
pub open spec fn read_lines(
    ls: Seq<Seq<char>>,
    in_section: bool,
    section: Seq<char>,
    property: Seq<char>,
) -> Option<Seq<char>>
    decreases ls.len(),
{
    if ls.len() == 0 {
        None
    } else {
        let t = trim(ls[0]);
        if is_group_line(t) {
            read_lines(ls.drop_first(), t == group_header(section), section, property)
        } else if in_section && has_key(t, property) {
            Some(value_after_eq(t))
        } else {
            read_lines(ls.drop_first(), in_section, section, property)
        }
    }
}

pub open spec fn read_ini_value_of(content: Seq<char>, section: Seq<char>, property: Seq<char>) -> Option<
    Seq<char>,
> {
    read_lines(text::lines(content), false, section, property)
}

fn group_header_exec(section: &str) -> (r: Vec<char>)
    ensures
        r@ == group_header(section@),
{
    let mut h: Vec<char> = Vec::new();
    h.push('[');
    text::push_str(&mut h, section);
    h.push(']');
    assert(h@ =~= group_header(section@));
    h
}

fn is_group_line_exec(t: &Vec<char>) -> (r: bool)
    ensures
        r == is_group_line(t@),
{
    t.len() > 0 && t[0] == '[' && t[t.len() - 1] == ']'
}

/// `read_ini_value`: the value of `property` in the group `[section]`.
pub fn read_ini_value(content: &str, section: &str, property: &str) -> (r: Option<String>)
    ensures
        r matches Some(v) ==> read_ini_value_of(content@, section@, property@) == Some(v@),
        r is None ==> read_ini_value_of(content@, section@, property@) is None,
{
    let cv = text::chars_of(content);
    let ls = text::lines_exec(&cv);
    let ghost lv = text::lines(content@);
    let header = group_header_exec(section);
    let pv = text::chars_of(property);
    let eq: Vec<char> = vec!['='];
    let mut in_section = false;
    let mut i: usize = 0;
    assert(lv.skip(0) =~= lv);
    while i < ls.len()
        invariant
            i <= ls.len(),
            lv == text::lines(content@),
            text::views(ls@) == lv,
            header@ == group_header(section@),
            pv@ == property@,
            eq@ == seq!['='],
            read_lines(lv, false, section@, property@) == read_lines(
                lv.skip(i as int),
                in_section,
                section@,
                property@,
            ),
        decreases ls.len() - i,
    {
        let ghost rest = lv.skip(i as int);
        assert(rest[0] == ls@[i as int]@);
        assert(rest.drop_first() =~= lv.skip(i + 1));
        let t = text::trim_exec(&ls[i]);
        if is_group_line_exec(&t) {
            in_section = text::seq_eq(&t, &header);
        } else if in_section {
            match text::find_exec(&t, &eq) {
                Some(k) => {
                    proof {
                        text::lemma_find_is_first(t@, seq!['=']);
                        assert(text::find(t@, seq!['=']) == Some(k as int));
                        assert(text::occurs_at(t@, seq!['='], k as int));
                        assert(seq!['='].len() == 1);
                    }
                    assert(k < t.len());
                    let key = text::slice_of(&t, 0, k);
                    if text::seq_eq(&key, &pv) {
                        let val = text::slice_of(&t, k + 1, t.len());
                        assert(key@ =~= t@.take(k as int));
                        assert(val@ =~= t@.skip(k + 1));
                        assert(has_key(t@, property@));
                        return Some(text::string_of(&val));
                    }
                    assert(key@ =~= t@.take(k as int));
                },
                None => {},
            }
        }
        i = i + 1;
    }
    None
}

/// `property=value`.
pub open spec fn kv_line(property: Seq<char>, value: Seq<char>) -> Seq<char> {
    property + seq!['='] + value
}

/// The output lines of `upsert_ini_value` for the remaining input lines, in
/// the state `in_section` (inside the target group) and `wrote` (the value
/// has been written).
pub open spec fn upsert_lines(
    ls: Seq<Seq<char>>,
    in_section: bool,
    wrote: bool,
    section: Seq<char>,
    property: Seq<char>,
    value: Seq<char>,
) -> Seq<Seq<char>>
    decreases ls.len(),
{
    if ls.len() == 0 {
        if in_section && !wrote {
            seq![kv_line(property, value)]
        } else {
            Seq::empty()
        }
    } else {
        let t = trim(ls[0]);
        let opens = is_group_line(t);
        let closes = opens && in_section && !wrote;
        let inside = if opens {
            t == group_header(section)
        } else {
            in_section
        };
        let replaces = inside && text::starts_with(t, property + seq!['=']);
        let before: Seq<Seq<char>> = if closes {
            seq![kv_line(property, value)]
        } else {
            Seq::empty()
        };
        let this = if replaces {
            kv_line(property, value)
        } else {
            ls[0]
        };
        before + seq![this] + upsert_lines(
            ls.drop_first(),
            inside,
            wrote || closes || replaces,
            section,
            property,
            value,
        )
    }
}

/// `upsert_ini_value`: every `property=` line of the group replaced, or one
/// added at the group's end where it has none; the lines joined with `\n` and
/// a final `\n`.
pub open spec fn upsert_ini_value_of(
    content: Seq<char>,
    section: Seq<char>,
    property: Seq<char>,
    value: Seq<char>,
) -> Seq<char> {
    text::unlines(upsert_lines(text::lines(content), false, false, section, property, value))
}

pub fn upsert_ini_value(content: &str, section: &str, property: &str, value: &str) -> (r: String)
    ensures
        r@ == upsert_ini_value_of(content@, section@, property@, value@),
{
    let cv = text::chars_of(content);
    let ls = text::lines_exec(&cv);
    let ghost lv = text::lines(content@);
    let header = group_header_exec(section);
    let mut prefix: Vec<char> = text::chars_of(property);
    prefix.push('=');
    let mut kv: Vec<char> = text::chars_of(property);
    kv.push('=');
    text::push_str(&mut kv, value);
    assert(kv@ =~= kv_line(property@, value@));
    assert(prefix@ =~= property@ + seq!['=']);
    let mut out: Vec<Vec<char>> = Vec::new();
    let mut in_section = false;
    let mut wrote = false;
    let mut i: usize = 0;
    assert(lv.skip(0) =~= lv);
    assert(text::views(out@) =~= Seq::<Seq<char>>::empty());
    while i < ls.len()
        invariant
            i <= ls.len(),
            text::views(ls@) == lv,
            header@ == group_header(section@),
            prefix@ == property@ + seq!['='],
            kv@ == kv_line(property@, value@),
            upsert_lines(lv, false, false, section@, property@, value@) == text::views(out@)
                + upsert_lines(lv.skip(i as int), in_section, wrote, section@, property@, value@),
        decreases ls.len() - i,
    {
        let ghost rest = lv.skip(i as int);
        let ghost before_out = text::views(out@);
        assert(rest[0] == ls@[i as int]@);
        assert(rest.drop_first() =~= lv.skip(i + 1));
        let t = text::trim_exec(&ls[i]);
        let opens = is_group_line_exec(&t);
        let closes = opens && in_section && !wrote;
        if closes {
            out.push(text::slice_of(&kv, 0, kv.len()));
            wrote = true;
        }
        if opens {
            in_section = text::seq_eq(&t, &header);
        }
        let replaces = in_section && text::starts_with_exec(&t, &prefix);
        if replaces {
            out.push(text::slice_of(&kv, 0, kv.len()));
            wrote = true;
        } else {
            out.push(text::slice_of(&ls[i], 0, ls[i].len()));
        }
        proof {
            assert(ls@[i as int]@.subrange(0, ls@[i as int]@.len() as int) =~= ls@[i as int]@);
            assert(kv@.subrange(0, kv@.len() as int) =~= kv@);
            let b: Seq<Seq<char>> = if closes {
                seq![kv_line(property@, value@)]
            } else {
                Seq::empty()
            };
            let this = if replaces {
                kv_line(property@, value@)
            } else {
                rest[0]
            };
            assert(text::views(out@) =~= before_out + b + seq![this]);
        }
        i = i + 1;
    }
    if in_section && !wrote {
        out.push(text::slice_of(&kv, 0, kv.len()));
        assert(kv@.subrange(0, kv@.len() as int) =~= kv@);
    }
    assert(text::views(out@) =~= upsert_lines(lv, false, false, section@, property@, value@)) by {
        assert(lv.skip(ls.len() as int) =~= Seq::<Seq<char>>::empty());
    }
    let r = text::unlines_exec(&out);
    text::string_of(&r)
}


// ── Reading back what was written ────────────────────────────────────────────

/// An entry that reads back as written: the property holds no `=` and does
/// not begin with whitespace, the value does not end with whitespace,
/// neither holds a line break, and the written line `property=value` does
/// not look like a group header (a property beginning with `[` with a value
/// ending in `]`).
pub open spec fn plain_entry(property: Seq<char>, value: Seq<char>) -> bool {
    &&& text::free_of(property, '=')
    &&& text::free_of(property, '\n')
    &&& text::free_of(value, '\n')
    &&& property.len() > 0 ==> !text::is_ws(property[0])
    &&& value.len() > 0 ==> !text::is_ws(value.last())
    &&& !(property.len() > 0 && property[0] == '[' && value.len() > 0 && value.last() == ']')
}

/// The group's own header line does not start with `property=`, so an
/// upsert never rewrites it (it could only where the property begins with
/// `[` and the section name holds `=`).
pub open spec fn header_untouched(section: Seq<char>, property: Seq<char>) -> bool {
    !text::starts_with(group_header(section), property + seq!['='])
}

/// A section name without `=`, or a property that does not begin with `[`,
/// leaves the header untouched.
pub proof fn lemma_header_untouched(section: Seq<char>, property: Seq<char>)
    requires
        text::free_of(section, '=') || (property.len() > 0 ==> property[0] != '['),
    ensures
        header_untouched(section, property),
{
    let h = group_header(section);
    let pe = property + seq!['='];
    if text::starts_with(h, pe) {
        assert(h.subrange(0, pe.len() as int)[0] == h[0]);
        assert(pe[0] == (if property.len() > 0 {
            property[0]
        } else {
            '='
        }));
        assert(h.subrange(0, pe.len() as int)[property.len() as int] == h[property.len() as int]);
        assert(pe[property.len() as int] == '=');
        if property.len() > 0 {
            assert(h[property.len() as int] == section[property.len() - 1]);
        }
    }
}

/// The text holds a line that opens the group `[section]`.
pub open spec fn has_group(content: Seq<char>, section: Seq<char>) -> bool {
    exists|i: int|
        0 <= i < text::lines(content).len() && trim(#[trigger] text::lines(content)[i])
            == group_header(section)
}

pub proof fn lemma_kv_facts(p: Seq<char>, v: Seq<char>)
    requires
        plain_entry(p, v),
    ensures
        trim(kv_line(p, v)) == kv_line(p, v),
        !is_group_line(kv_line(p, v)),
        has_key(kv_line(p, v), p),
        value_after_eq(kv_line(p, v)) == v,
        text::free_of(kv_line(p, v), '\n'),
{
    let kv = kv_line(p, v);
    let eq = seq!['='];
    assert(kv[0] == (if p.len() > 0 {
        p[0]
    } else {
        '='
    }));
    assert(!text::is_ws(kv[0]));
    assert(text::trim_start(kv) == kv);
    assert(kv.last() == (if v.len() > 0 {
        v.last()
    } else {
        '='
    }));
    assert(!text::is_ws(kv.last()));
    assert(text::trim_end(kv) == kv);
    assert(kv.subrange(p.len() as int, (p.len() + 1) as int) =~= eq);
    assert(text::occurs_at(kv, eq, p.len() as int));
    assert forall|j: int| 0 <= j < p.len() implies !text::occurs_at(kv, eq, j) by {
        assert(kv[j] == p[j]);
        if text::occurs_at(kv, eq, j) {
            assert(kv.subrange(j, j + 1)[0] == kv[j]);
        }
    }
    text::lemma_find_first(kv, eq, p.len() as int);
    assert(kv.take(p.len() as int) =~= p);
    assert(kv.skip((p.len() + 1) as int) =~= v);
    assert forall|j: int| 0 <= j < kv.len() implies #[trigger] kv[j] != '\n' by {
        if j < p.len() {
            assert(kv[j] == p[j]);
        } else if j > p.len() {
            assert(kv[j] == v[j - p.len() - 1]);
        }
    }
}

/// Where the property holds no `=`, a line has it as key exactly when it
/// starts with `property=`.
proof fn lemma_has_key_prefix(t: Seq<char>, p: Seq<char>)
    requires
        text::free_of(p, '='),
    ensures
        has_key(t, p) == text::starts_with(t, p + seq!['=']),
{
    let eq = seq!['='];
    text::lemma_find_is_first(t, eq);
    if text::starts_with(t, p + eq) {
        assert(t.subrange(0, (p.len() + 1) as int) == p + eq);
        assert(t[p.len() as int] == (p + eq)[p.len() as int]);
        assert(t.subrange(p.len() as int, (p.len() + 1) as int) =~= eq);
        assert forall|j: int| 0 <= j < p.len() implies !text::occurs_at(t, eq, j) by {
            assert(t[j] == (p + eq)[j]);
            if text::occurs_at(t, eq, j) {
                assert(t.subrange(j, j + 1)[0] == t[j]);
            }
        }
        text::lemma_find_first(t, eq, p.len() as int);
        assert(t.take(p.len() as int) =~= p);
    }
    if has_key(t, p) {
        let i = text::find(t, eq)->0;
        assert(t.take(i) == p);
        assert(i == p.len());
        assert(t.subrange(i, i + 1)[0] == t[i]);
        assert(t.subrange(0, (p.len() + 1) as int) =~= p + eq);
    }
}

proof fn lemma_read_strip_cr(ls: Seq<Seq<char>>, b: bool, s: Seq<char>, p: Seq<char>)
    ensures
        read_lines(text::strip_cr_all(ls), b, s, p) == read_lines(ls, b, s, p),
    decreases ls.len(),
{
    if ls.len() > 0 {
        let sc = text::strip_cr_all(ls);
        text::lemma_trim_strip_cr(ls[0]);
        assert(sc[0] == text::strip_cr(ls[0]));
        assert(sc.drop_first() =~= text::strip_cr_all(ls.drop_first()));
        lemma_read_strip_cr(ls.drop_first(), true, s, p);
        lemma_read_strip_cr(ls.drop_first(), false, s, p);
    }
}

proof fn lemma_upsert_free(
    ls: Seq<Seq<char>>,
    in_section: bool,
    wrote: bool,
    s: Seq<char>,
    p: Seq<char>,
    v: Seq<char>,
)
    requires
        text::none_hold(ls, '\n'),
        text::free_of(kv_line(p, v), '\n'),
    ensures
        text::none_hold(upsert_lines(ls, in_section, wrote, s, p, v), '\n'),
        ls.len() > 0 ==> upsert_lines(ls, in_section, wrote, s, p, v).len() > 0,
    decreases ls.len(),
{
    let out = upsert_lines(ls, in_section, wrote, s, p, v);
    let kv = kv_line(p, v);
    if ls.len() == 0 {
        assert forall|i: int, j: int| 0 <= i < out.len() && 0 <= j < out[i].len() implies #[trigger] out[i][j]
            != '\n' by {
            assert(out[i] == kv);
        }
    } else {
        let t = trim(ls[0]);
        let opens = is_group_line(t);
        let closes = opens && in_section && !wrote;
        let inside = if opens {
            t == group_header(s)
        } else {
            in_section
        };
        let replaces = inside && text::starts_with(t, p + seq!['=']);
        let rest_ls = ls.drop_first();
        assert(text::none_hold(rest_ls, '\n')) by {
            assert forall|i: int, j: int| 0 <= i < rest_ls.len() && 0 <= j < rest_ls[i].len() implies #[trigger] rest_ls[i][j]
                != '\n' by {
                assert(rest_ls[i] == ls[i + 1]);
            }
        }
        lemma_upsert_free(rest_ls, inside, wrote || closes || replaces, s, p, v);
        let rest = upsert_lines(rest_ls, inside, wrote || closes || replaces, s, p, v);
        let before: Seq<Seq<char>> = if closes {
            seq![kv]
        } else {
            Seq::empty()
        };
        let this = if replaces {
            kv
        } else {
            ls[0]
        };
        assert(out == before + seq![this] + rest);
        assert forall|i: int, j: int| 0 <= i < out.len() && 0 <= j < out[i].len() implies #[trigger] out[i][j]
            != '\n' by {
            if i < before.len() {
                assert(out[i] == kv);
            } else if i == before.len() {
                assert(out[i] == this);
                if !replaces {
                    assert(ls[0][j] != '\n');
                }
            } else {
                assert(out[i] == rest[i - before.len() - 1]);
            }
        }
    }
}

/// Inside the target group with nothing written yet, the first line that
/// the reader sees with the key is the one written.
proof fn lemma_read_upsert_inside(ls: Seq<Seq<char>>, s: Seq<char>, p: Seq<char>, v: Seq<char>)
    requires
        plain_entry(p, v),
    ensures
        read_lines(upsert_lines(ls, true, false, s, p, v), true, s, p) == Some(v),
    decreases ls.len(),
{
    lemma_kv_facts(p, v);
    let kv = kv_line(p, v);
    let out = upsert_lines(ls, true, false, s, p, v);
    if ls.len() == 0 {
        assert(out == seq![kv]);
    } else {
        let t = trim(ls[0]);
        if is_group_line(t) {
            assert(out[0] == kv);
        } else {
            lemma_has_key_prefix(t, p);
            if text::starts_with(t, p + seq!['=']) {
                assert(out[0] == kv);
            } else {
                lemma_read_upsert_inside(ls.drop_first(), s, p, v);
                let rest = upsert_lines(ls.drop_first(), true, false, s, p, v);
                assert(out =~= seq![ls[0]] + rest);
                assert(out[0] == ls[0]);
                assert(out.drop_first() =~= rest);
            }
        }
    }
}

proof fn lemma_read_upsert(ls: Seq<Seq<char>>, s: Seq<char>, p: Seq<char>, v: Seq<char>)
    requires
        plain_entry(p, v),
        header_untouched(s, p),
        exists|i: int| 0 <= i < ls.len() && trim(#[trigger] ls[i]) == group_header(s),
    ensures
        read_lines(upsert_lines(ls, false, false, s, p, v), false, s, p) == Some(v),
    decreases ls.len(),
{
    let i0 = choose|i: int| 0 <= i < ls.len() && trim(#[trigger] ls[i]) == group_header(s);
    let t = trim(ls[0]);
    let h = group_header(s);
    let out = upsert_lines(ls, false, false, s, p, v);
    assert(is_group_line(h)) by {
        assert(h[0] == '[');
        assert(h.last() == ']');
    }
    if t == h {
        assert(!text::starts_with(t, p + seq!['=']));
        lemma_read_upsert_inside(ls.drop_first(), s, p, v);
        let rest = upsert_lines(ls.drop_first(), true, false, s, p, v);
        assert(out =~= seq![ls[0]] + rest);
        assert(out[0] == ls[0]);
        assert(out.drop_first() =~= rest);
    } else {
        assert(i0 > 0);
        assert(trim(ls.drop_first()[i0 - 1]) == h);
        lemma_read_upsert(ls.drop_first(), s, p, v);
        let rest = upsert_lines(ls.drop_first(), false, false, s, p, v);
        assert(out =~= seq![ls[0]] + rest);
        assert(out[0] == ls[0]);
        assert(out.drop_first() =~= rest);
    }
}

proof fn lemma_group_header_injective(a: Seq<char>, b: Seq<char>)
    requires
        group_header(a) == group_header(b),
    ensures
        a == b,
{
    assert(group_header(a).len() == a.len() + 2);
    assert(group_header(b).len() == b.len() + 2);
    assert(a =~= group_header(a).subrange(1, a.len() + 1int));
    assert(b =~= group_header(b).subrange(1, b.len() + 1int));
}

/// Reading another entry is not changed by an upsert: `u_in` and `r_in`
/// are whether the writer and the reader are inside their groups.
#[verifier::spinoff_prover]
#[verifier::rlimit(30)]
proof fn lemma_read_other_upsert(
    ls: Seq<Seq<char>>,
    u_in: bool,
    wrote: bool,
    r_in: bool,
    s: Seq<char>,
    p: Seq<char>,
    v: Seq<char>,
    s2: Seq<char>,
    p2: Seq<char>,
)
    requires
        plain_entry(p, v),
        header_untouched(s, p),
        s != s2 || p != p2,
        u_in && r_in ==> s == s2,
    ensures
        read_lines(upsert_lines(ls, u_in, wrote, s, p, v), r_in, s2, p2) == read_lines(ls, r_in, s2, p2),
    decreases ls.len(),
{
    lemma_kv_facts(p, v);
    let kv = kv_line(p, v);
    assert(has_key(kv, p2) ==> p2 == p);
    let out = upsert_lines(ls, u_in, wrote, s, p, v);
    if ls.len() == 0 {
        if u_in && !wrote {
            assert(out == seq![kv]);
            assert(out[0] == kv);
            assert(out.drop_first() =~= Seq::<Seq<char>>::empty());
            assert(!(r_in && has_key(kv, p2)));
            assert(read_lines(out.drop_first(), r_in, s2, p2) is None);
        } else {
            assert(out =~= Seq::<Seq<char>>::empty());
        }
    } else {
        let t = trim(ls[0]);
        let opens = is_group_line(t);
        let closes = opens && u_in && !wrote;
        let inside = if opens {
            t == group_header(s)
        } else {
            u_in
        };
        let replaces = inside && text::starts_with(t, p + seq!['=']);
        lemma_has_key_prefix(t, p);
        assert(has_key(t, p) && has_key(t, p2) ==> p2 == p);
        let r_next = if opens {
            t == group_header(s2)
        } else {
            r_in
        };
        if opens && inside && r_next {
            lemma_group_header_injective(s, s2);
        }
        if replaces {
            assert(!opens);
        }
        lemma_read_other_upsert(ls.drop_first(), inside, wrote || closes || replaces, r_next, s, p, v, s2, p2);
        let rest = upsert_lines(ls.drop_first(), inside, wrote || closes || replaces, s, p, v);
        let this = if replaces {
            kv
        } else {
            ls[0]
        };
        let tail = seq![this] + rest;
        assert(tail[0] == this);
        assert(tail.drop_first() =~= rest);
        assert(trim(this) == t || (replaces && this == kv));
        assert(read_lines(tail, r_in, s2, p2) == read_lines(ls, r_in, s2, p2)) by {
            if replaces {
                assert(!(r_in && has_key(kv, p2)));
                assert(!(r_in && has_key(t, p2)));
            }
        }
        if closes {
            assert(out =~= seq![kv] + tail);
            assert(out[0] == kv);
            assert(out.drop_first() =~= tail);
            assert(!(r_in && has_key(kv, p2)));
            assert(read_lines(out, r_in, s2, p2) == read_lines(tail, r_in, s2, p2));
        } else {
            assert(out =~= tail);
        }
    }
}

/// An upsert leaves every other entry as it reads: another key of the
/// group, or any key of another group, reads the same before and after.
pub proof fn lemma_upsert_keeps_other_entries(
    content: Seq<char>,
    section: Seq<char>,
    property: Seq<char>,
    value: Seq<char>,
    other_section: Seq<char>,
    other_property: Seq<char>,
)
    requires
        plain_entry(property, value),
        header_untouched(section, property),
        section != other_section || property != other_property,
    ensures
        read_ini_value_of(upsert_ini_value_of(content, section, property, value), other_section, other_property)
            == read_ini_value_of(content, other_section, other_property),
{
    let ls = text::lines(content);
    lemma_kv_facts(property, value);
    text::lemma_lines_free(content);
    lemma_upsert_free(ls, false, false, section, property, value);
    let out = upsert_lines(ls, false, false, section, property, value);
    if ls.len() == 0 {
        let one = seq![Seq::<char>::empty()];
        assert(out =~= Seq::<Seq<char>>::empty());
        assert(text::unlines(out) =~= text::unlines(one));
        text::lemma_lines_unlines(one);
        assert(text::strip_cr_all(one) =~= one);
        assert(one.drop_first() =~= Seq::<Seq<char>>::empty());
    } else {
        text::lemma_lines_unlines(out);
        lemma_read_strip_cr(out, false, other_section, other_property);
    }
    lemma_read_other_upsert(ls, false, false, false, section, property, value, other_section, other_property);
}

/// Reading a value back after `upsert_ini_value` wrote it gives the value
/// written, wherever the group exists and the entry reads back as written.
pub proof fn lemma_read_after_upsert(
    content: Seq<char>,
    section: Seq<char>,
    property: Seq<char>,
    value: Seq<char>,
)
    requires
        plain_entry(property, value),
        header_untouched(section, property),
        has_group(content, section),
    ensures
        read_ini_value_of(upsert_ini_value_of(content, section, property, value), section, property)
            == Some(value),
{
    let ls = text::lines(content);
    lemma_kv_facts(property, value);
    text::lemma_lines_free(content);
    lemma_upsert_free(ls, false, false, section, property, value);
    let out = upsert_lines(ls, false, false, section, property, value);
    text::lemma_lines_unlines(out);
    lemma_read_strip_cr(out, false, section, property);
    lemma_read_upsert(ls, section, property, value);
}


// ── `#RRGGBB` and `r,g,b` convert into each other ────────────────────────────

proof fn lemma_hex_digit_upper(d: nat)
    requires
        d < 16,
    ensures
        is_hex_digit(text::hex_digit_upper(d)),
        hex_value(text::hex_digit_upper(d)) == d,
        utf8_width(text::hex_digit_upper(d)) == 1,
        !text::is_ws(text::hex_digit_upper(d)),
        text::hex_digit_upper(d) != '#',
        text::hex_digit_upper(d) != '+',
{
    if d < 10 {
        text::lemma_digit_char(d);
    }
}

proof fn lemma_upper_hex_digit(c: char)
    requires
        is_hex_digit(c),
    ensures
        text::hex_digit_upper(hex_value(c)) == text::upper_char(c),
{
}

/// A decimal of at most 255 parses back, holds no `,` and trims to itself.
proof fn lemma_dec_reads_back(n: nat)
    requires
        n <= 255,
    ensures
        trim(dec(n)) == dec(n),
        text::parse_unsigned(trim(dec(n)), 255) == Some(n),
        text::free_of(dec(n), ','),
{
    let d = dec(n);
    text::lemma_dec_digits(n);
    assert(text::is_ascii_digit(d[0]));
    assert(text::is_ascii_digit(d.last()));
    assert(text::trim_start(d) == d);
    assert(text::trim_end(d) == d);
    assert(text::unsigned_digits(d) == d);
    assert forall|j: int| 0 <= j < d.len() implies #[trigger] d[j] != ',' by {
        assert(text::is_ascii_digit(d[j]));
    }
}

proof fn lemma_split_rgb_text(a: u8, b: u8, c: u8)
    ensures
        text::split_char(rgb_text(a, b, c), ',') == seq![dec(a as nat), dec(b as nat), dec(c as nat)],
{
    let (da, db, dc) = (dec(a as nat), dec(b as nat), dec(c as nat));
    lemma_dec_reads_back(a as nat);
    lemma_dec_reads_back(b as nat);
    lemma_dec_reads_back(c as nat);
    reveal_strlit(",");
    text::lemma_split_free(da, ',');
    let x1 = da.push(',');
    assert(x1.drop_last() =~= da);
    assert(text::split_char(x1, ',') =~= seq![da, Seq::<char>::empty()]);
    text::lemma_split_append_free(x1, db, ',');
    assert(Seq::<char>::empty() + db =~= db);
    assert(text::split_char(x1 + db, ',') =~= seq![da, db]);
    let x2 = (x1 + db).push(',');
    assert(x2.drop_last() =~= x1 + db);
    assert(text::split_char(x2, ',') =~= seq![da, db, Seq::<char>::empty()]);
    text::lemma_split_append_free(x2, dc, ',');
    assert(Seq::<char>::empty() + dc =~= dc);
    assert(x2 + dc =~= rgb_text(a, b, c));
    assert(text::split_char(x2 + dc, ',') =~= seq![da, db, dc]);
}

proof fn lemma_parse_rgb_text(a: u8, b: u8, c: u8)
    ensures
        parsed_channels(text::split_char(rgb_text(a, b, c), ',')) == seq![a as nat, b as nat, c as nat],
{
    lemma_split_rgb_text(a, b, c);
    lemma_dec_reads_back(a as nat);
    lemma_dec_reads_back(b as nat);
    lemma_dec_reads_back(c as nat);
    let parts = seq![dec(a as nat), dec(b as nat), dec(c as nat)];
    assert(parts.drop_last().drop_last().drop_last() =~= Seq::<Seq<char>>::empty());
    assert(parts.drop_last().drop_last() =~= seq![dec(a as nat)]);
    assert(parts.drop_last().drop_last().last() == dec(a as nat));
    assert(parts.drop_last().drop_last().drop_last() =~= Seq::<Seq<char>>::empty());
    assert(parsed_channels(Seq::<Seq<char>>::empty()) == Seq::<nat>::empty());
    assert(Seq::<nat>::empty().push(a as nat) =~= seq![a as nat]);
    assert(parsed_channels(parts.drop_last().drop_last()) =~= seq![a as nat]);
    assert(parsed_channels(parts.drop_last()) =~= seq![a as nat, b as nat]);
    assert(parsed_channels(parts) =~= seq![a as nat, b as nat, c as nat]);
}

/// A `#RRGGBB` color read as `r,g,b` and written back as hexadecimal is the
/// same color in upper case.
#[verifier::rlimit(50)]
pub proof fn lemma_hex_rgb_hex(h: Seq<char>)
    requires
        crate::settings::valid_override_color(h),
    ensures
        hex_input_readable(h),
        hex_to_rgb_string_of(h) == Ok::<Seq<char>, Seq<char>>(rgb_str_of(h)),
        rgb_to_hex_of(rgb_str_of(h)) == seq!['#'] + text::upper(h.skip(1)),
{
    assert(is_hex_digit(h[1]) && is_hex_digit(h[2]) && is_hex_digit(h[3]));
    assert(is_hex_digit(h[4]) && is_hex_digit(h[5]) && is_hex_digit(h[6]));
    assert(!text::is_ws(h[0]));
    assert(text::trim_start(h) == h);
    assert(h.last() == h[6]);
    assert(text::trim_end(h) == h);
    lemma_utf8_len_ascii(h);
    assert(utf8_len(h) == 7);
    let t = h.drop_first();
    assert(strip_hashes(t) == t);
    assert(strip_hashes(h) == t);
    assert(t.skip(2)[0] == h[3] && t.skip(2)[1] == h[4]);
    assert(t.skip(2).skip(2) =~= t.skip(4));
    assert(t.skip(4)[0] == h[5] && t.skip(4)[1] == h[6]);
    assert(t.skip(4).skip(2).len() == 0);
    assert(utf8_width(h[1]) == 1 && utf8_width(h[2]) == 1 && utf8_width(h[3]) == 1);
    assert(utf8_width(h[4]) == 1 && utf8_width(h[5]) == 1 && utf8_width(h[6]) == 1);
    assert(byte_pairs(t.skip(4).skip(2), 0) == Some(Seq::<u8>::empty()));
    let r = hex_pair(h[1], h[2]);
    let g = hex_pair(h[3], h[4]);
    let b = hex_pair(h[5], h[6]);
    assert(byte_pairs(t.skip(4), 1) =~= Some(seq![b]));
    assert(byte_pairs(t.skip(2), 2) =~= Some(seq![g, b]));
    assert(rgb_channels(h) =~= Some(seq![r, g, b]));
    lemma_parse_rgb_text(r, g, b);
    lemma_upper_hex_digit(h[1]);
    lemma_upper_hex_digit(h[2]);
    lemma_upper_hex_digit(h[3]);
    lemma_upper_hex_digit(h[4]);
    lemma_upper_hex_digit(h[5]);
    lemma_upper_hex_digit(h[6]);
    assert(rgb_to_hex_of(rgb_str_of(h)) =~= seq!['#'] + text::upper(h.skip(1)));
}

/// A color written as `r,g,b` whose three parts parse, converted to
/// hexadecimal and read back, is its three channels in canonical form.
#[verifier::rlimit(50)]
pub proof fn lemma_rgb_hex_rgb(rgb: Seq<char>)
    requires
        parsed_channels(text::split_char(rgb, ',')).len() == 3,
    ensures
        hex_input_readable(rgb_to_hex_of(rgb)),
        hex_to_rgb_string_of(rgb_to_hex_of(rgb)) == Ok::<Seq<char>, Seq<char>>(
            rgb_text(
                parsed_channels(text::split_char(rgb, ','))[0] as u8,
                parsed_channels(text::split_char(rgb, ','))[1] as u8,
                parsed_channels(text::split_char(rgb, ','))[2] as u8,
            ),
        ),
{
    let p = parsed_channels(text::split_char(rgb, ','));
    lemma_parsed_bound(text::split_char(rgb, ','));
    let (a, b, c) = (p[0] as u8, p[1] as u8, p[2] as u8);
    let h = rgb_to_hex_of(rgb);
    assert(h == seq!['#'] + hex2(a) + hex2(b) + hex2(c));
    lemma_hex_digit_upper(a as nat / 16);
    lemma_hex_digit_upper(a as nat % 16);
    lemma_hex_digit_upper(b as nat / 16);
    lemma_hex_digit_upper(b as nat % 16);
    lemma_hex_digit_upper(c as nat / 16);
    lemma_hex_digit_upper(c as nat % 16);
    assert(h.len() == 7);
    assert(!text::is_ws(h[0]));
    assert(text::trim_start(h) == h);
    assert(h.last() == h[6]);
    assert(text::trim_end(h) == h);
    lemma_utf8_len_ascii(h);
    assert(utf8_len(h) == 7);
    let t = h.drop_first();
    assert(strip_hashes(t) == t);
    assert(strip_hashes(h) == t);
    assert(t.skip(2)[0] == h[3] && t.skip(2)[1] == h[4]);
    assert(t.skip(2).skip(2) =~= t.skip(4));
    assert(t.skip(4)[0] == h[5] && t.skip(4)[1] == h[6]);
    assert(t.skip(4).skip(2).len() == 0);
    assert(utf8_width(h[1]) == 1 && utf8_width(h[2]) == 1 && utf8_width(h[3]) == 1);
    assert(utf8_width(h[4]) == 1 && utf8_width(h[5]) == 1 && utf8_width(h[6]) == 1);
    assert(byte_pairs(t.skip(4).skip(2), 0) == Some(Seq::<u8>::empty()));
    assert(hex_pair(h[1], h[2]) == a);
    assert(hex_pair(h[3], h[4]) == b);
    assert(hex_pair(h[5], h[6]) == c);
    assert(byte_pairs(t.skip(4), 1) =~= Some(seq![c]));
    assert(byte_pairs(t.skip(2), 2) =~= Some(seq![b, c]));
    assert(rgb_channels(h) =~= Some(seq![a, b, c]));
}

/// Every channel that parses as `u8` is at most 255.
proof fn lemma_parsed_bound(parts: Seq<Seq<char>>)
    ensures
        forall|i: int| 0 <= i < parsed_channels(parts).len() ==> #[trigger] parsed_channels(parts)[i]
            <= 255,
    decreases parts.len(),
{
    if parts.len() > 0 {
        lemma_parsed_bound(parts.drop_last());
        let rest = parsed_channels(parts.drop_last());
        let all = parsed_channels(parts);
        assert forall|i: int| 0 <= i < all.len() implies #[trigger] all[i] <= 255 by {
            if i < rest.len() {
                assert(all[i] == rest[i]);
            }
        }
    }
}

/// Text of one-byte characters takes one byte per character.
proof fn lemma_utf8_len_ascii(s: Seq<char>)
    requires
        forall|i: int| 0 <= i < s.len() ==> (#[trigger] s[i] as u32) < 0x80,
    ensures
        utf8_len(s) == s.len(),
    decreases s.len(),
{
    if s.len() > 0 {
        assert((s[s.len() - 1] as u32) < 0x80);
        lemma_utf8_len_ascii(s.drop_last());
    }
}


// ── The swap scheme and wallpaper paths ──────────────────────────────────────

/// The scheme text renamed to the swap scheme, which KDE applies first so
/// that re-applying the real scheme takes effect.
pub open spec fn swap_scheme_text_of(content: Seq<char>) -> Seq<char> {
    text::replace_all(
        text::replace_all(content, "ColorScheme=MatugenStudio"@, "ColorScheme=MatugenStudioSwap"@),
        "Name=MatugenStudio"@,
        "Name=MatugenStudioSwap"@,
    )
}

pub fn swap_scheme_text(content: &str) -> (r: String)
    ensures
        r@ == swap_scheme_text_of(content@),
{
    let v = text::chars_of(content);
    let a = text::chars_of("ColorScheme=MatugenStudio");
    let b = text::chars_of("ColorScheme=MatugenStudioSwap");
    let c = text::chars_of("Name=MatugenStudio");
    let d = text::chars_of("Name=MatugenStudioSwap");
    let first = text::replace_exec(&v, &a, &b);
    let second = text::replace_exec(&first, &c, &d);
    text::string_of(&second)
}

/// What `percent_encoding` decodes a path to: each `%` and two hexadecimal
/// digits as the byte they spell, the bytes read as UTF-8 with invalid
/// sequences replaced.
pub uninterp spec fn percent_decoded(text: Seq<char>) -> Seq<char>;

/// Calls `percent_encoding::percent_decode_str` and `decode_utf8_lossy`. The
/// result is named by `percent_decoded`; a text without `%` decodes to itself
/// (the decoder passes every other byte through, and valid UTF-8 stays as it is).
#[verifier::external_body]
fn percent_decode_lossy(text: &str) -> (r: String)
    ensures
        r@ == percent_decoded(text@),
        text::free_of(text@, '%') ==> r@ == text@,
{
    percent_encoding::percent_decode_str(text).decode_utf8_lossy().to_string()
}

/// `str::trim_start_matches(c)`.
pub open spec fn strip_start_char(s: Seq<char>, c: char) -> Seq<char>
    decreases s.len(),
{
    if s.len() > 0 && s[0] == c {
        strip_start_char(s.drop_first(), c)
    } else {
        s
    }
}

/// `str::trim_end_matches(c)`.
pub open spec fn strip_end_char(s: Seq<char>, c: char) -> Seq<char>
    decreases s.len(),
{
    if s.len() > 0 && s.last() == c {
        strip_end_char(s.drop_last(), c)
    } else {
        s
    }
}

/// `str::trim_matches(c)`.
pub open spec fn trim_char(s: Seq<char>, c: char) -> Seq<char> {
    strip_end_char(strip_start_char(s, c), c)
}

fn trim_char_exec(s: &Vec<char>, c: char) -> (r: Vec<char>)
    ensures
        r@ == trim_char(s@, c),
{
    let mut i: usize = 0;
    assert(s@.skip(0) =~= s@);
    while i < s.len() && s[i] == c
        invariant
            i <= s.len(),
            strip_start_char(s@.skip(i as int), c) == strip_start_char(s@, c),
        decreases s.len() - i,
    {
        assert(s@.skip(i as int).drop_first() =~= s@.skip(i + 1));
        i = i + 1;
    }
    let t = text::slice_of(s, i, s.len());
    assert(t@ =~= s@.skip(i as int));
    let mut j: usize = t.len();
    assert(t@.take(j as int) =~= t@);
    while j > 0 && t[j - 1] == c
        invariant
            j <= t.len(),
            strip_end_char(t@.take(j as int), c) == strip_end_char(t@, c),
        decreases j,
    {
        assert(t@.take(j as int).drop_last() =~= t@.take(j - 1));
        j = j - 1;
    }
    let r = text::slice_of(&t, 0, j);
    assert(r@ =~= t@.take(j as int));
    r
}

/// The text between `trim` and the path: quotes removed, and empty, `null`
/// and `undefined` refused.
pub open spec fn unquoted(raw: Seq<char>) -> Seq<char> {
    trim_char(trim_char(trim(raw), '"'), '\'')
}

/// The path part of what KDE reports: from `file:` on, after an `Image:`
/// label, before a line break or a `+video` suffix, without the `file:` scheme.
pub open spec fn reported_path(v0: Seq<char>) -> Seq<char> {
    let v1 = match text::find(v0, "file:"@) {
        Some(i) => v0.skip(i),
        None => v0,
    };
    let v2 = if text::starts_with(v1, "Image:"@) {
        trim(v1.skip(6))
    } else {
        v1
    };
    let v3 = match text::find(v2, seq!['\n']) {
        Some(i) => trim(v2.take(i)),
        None => v2,
    };
    let v4 = match text::find(v3, "+video"@) {
        Some(i) => v3.take(i),
        None => v3,
    };
    if text::starts_with(v4, "file://"@) {
        v4.skip(7)
    } else if text::starts_with(v4, "file:"@) {
        v4.skip(5)
    } else {
        v4
    }
}

/// `normalize_wallpaper_path`: the absolute path that KDE reported, percent
/// decoded; `None` for nothing, `null`, `undefined` or a relative path.
pub open spec fn normalized_wallpaper_path(raw: Seq<char>) -> Option<Seq<char>> {
    let v0 = unquoted(raw);
    if v0.len() == 0 || v0 == "null"@ || v0 == "undefined"@ {
        None
    } else {
        let path = reported_path(v0);
        if path.len() == 0 || path[0] != '/' {
            None
        } else {
            Some(percent_decoded(path))
        }
    }
}

fn reported_path_exec(v0: &Vec<char>) -> (r: Vec<char>)
    ensures
        r@ == reported_path(v0@),
{
    let ghost s1 = match text::find(v0@, "file:"@) {
        Some(i) => v0@.skip(i),
        None => v0@,
    };
    let v1 = match text::find_str(v0, "file:") {
        Some(i) => {
            proof {
                text::lemma_find_is_first(v0@, "file:"@);
            }
            let r = text::slice_of(v0, i, v0.len());
            assert(r@ =~= v0@.skip(i as int));
            r
        },
        None => text::slice_of(v0, 0, v0.len()),
    };
    assert(v1@ =~= s1);
    let ghost s2 = if text::starts_with(s1, "Image:"@) {
        trim(s1.skip(6))
    } else {
        s1
    };
    let v2 = if text::starts_with_str(&v1, "Image:") {
        proof {
            reveal_strlit("Image:");
        }
        let rest = text::slice_of(&v1, 6, v1.len());
        assert(rest@ =~= v1@.skip(6));
        text::trim_exec(&rest)
    } else {
        v1
    };
    assert(v2@ == s2);
    let ghost s3 = match text::find(s2, seq!['\n']) {
        Some(i) => trim(s2.take(i)),
        None => s2,
    };
    let nl: Vec<char> = vec!['\n'];
    assert(nl@ =~= seq!['\n']);
    let v3 = match text::find_exec(&v2, &nl) {
        Some(i) => {
            proof {
                text::lemma_find_is_first(v2@, nl@);
            }
            let head = text::slice_of(&v2, 0, i);
            assert(head@ =~= v2@.take(i as int));
            text::trim_exec(&head)
        },
        None => v2,
    };
    assert(v3@ == s3);
    let ghost s4 = match text::find(s3, "+video"@) {
        Some(i) => s3.take(i),
        None => s3,
    };
    let v4 = match text::find_str(&v3, "+video") {
        Some(i) => {
            proof {
                text::lemma_find_is_first(v3@, "+video"@);
            }
            let head = text::slice_of(&v3, 0, i);
            assert(head@ =~= v3@.take(i as int));
            head
        },
        None => v3,
    };
    assert(v4@ == s4);
    proof {
        reveal_strlit("file://");
        reveal_strlit("file:");
    }
    if text::starts_with_str(&v4, "file://") {
        let r = text::slice_of(&v4, 7, v4.len());
        assert(r@ =~= v4@.skip(7));
        r
    } else if text::starts_with_str(&v4, "file:") {
        let r = text::slice_of(&v4, 5, v4.len());
        assert(r@ =~= v4@.skip(5));
        r
    } else {
        v4
    }
}

pub fn normalize_wallpaper_path(raw: &str) -> (r: Option<String>)
    ensures
        r matches Some(p) ==> normalized_wallpaper_path(raw@) == Some(p@),
        r is None ==> normalized_wallpaper_path(raw@) is None,
{
    let v = text::chars_of(raw);
    let t = text::trim_exec(&v);
    let q = trim_char_exec(&t, '"');
    let v0 = trim_char_exec(&q, '\'');
    if v0.len() == 0 || text::eq_str(&v0, "null") || text::eq_str(&v0, "undefined") {
        return None;
    }
    let path = reported_path_exec(&v0);
    if path.len() == 0 || path[0] != '/' {
        return None;
    }
    let ps = text::string_of(&path);
    Some(percent_decode_lossy(ps.as_str()))
}

/// The file name to show for a wallpaper path, or the path itself.
pub open spec fn wallpaper_label(path: Seq<char>) -> Seq<char> {
    match crate::path::file_name(path) {
        Some(f) => f,
        None => path,
    }
}

pub fn wallpaper_file_name(path: &str) -> (r: String)
    ensures
        r@ == wallpaper_label(path@),
{
    match crate::path::file_name_exec(path) {
        Some(f) => f,
        None => text::string_of(&text::chars_of(path)),
    }
}

// ── Watcher state transitions ────────────────────────────────────────────────

fn clone_opt(o: &Option<String>) -> (r: Option<String>)
    ensures
        opt_view(r) == opt_view(*o),
{
    match o {
        Some(s) => Some(s.clone()),
        None => None,
    }
}

fn clone_string(s: &String) -> (r: String)
    ensures
        r@ == s@,
{
    s.clone()
}

/// The watcher would generate a theme for `wallpaper`: it is running, idle,
/// and `wallpaper` is not the one it handled last.
pub open spec fn handles(s: KdeWatcherSnapshot, wallpaper: Seq<char>) -> bool {
    s.enabled && !s.is_processing && opt_view(s.last_handled_wallpaper) != Some(wallpaper)
}

/// The persisted status that a snapshot stands for.
pub open spec fn status_matches(st: KdeServiceStatus, s: KdeWatcherSnapshot, enabled: bool) -> bool {
    &&& st.enabled == enabled
    &&& st.run_in_background == s.run_in_background
    &&& opt_view(st.current_wallpaper) == opt_view(s.last_handled_wallpaper)
    &&& st.poll_interval_secs == s.poll_interval_secs
    &&& st.scheme_type@ == s.scheme_type@
    &&& st.gtk_enabled == s.gtk_enabled
    &&& st.gtk_dark == s.gtk_dark
}

/// The interval and scheme that the watcher runs with: the interval clamped
/// to 5..=3600 seconds, a blank scheme replaced by the default.
pub open spec fn effective_interval(secs: u64) -> u64 {
    if secs < 5 {
        5
    } else if secs > 3600 {
        3600
    } else {
        secs
    }
}

pub open spec fn effective_scheme(scheme: Seq<char>) -> Seq<char> {
    if trim(scheme).len() == 0 {
        default_scheme_type_text()
    } else {
        scheme
    }
}

/// `should_run_in_background`: the persisted choice, or `false` where the
/// status could not be read.
pub fn should_run_in_background(status: &Result<KdeServiceStatus, String>) -> (r: bool)
    ensures
        r == (status matches Ok(s) && s.run_in_background),
{
    match status {
        Ok(s) => s.run_in_background,
        Err(_) => false,
    }
}

impl KdeWatcherOptions {
    /// The options that a persisted, enabled service restarts with.
    pub fn from_status(status: &KdeServiceStatus) -> (r: Option<KdeWatcherOptions>)
        ensures
            r is Some <==> status.enabled,
            r matches Some(o) ==> o.poll_interval_secs == status.poll_interval_secs && o.scheme_type@
                == status.scheme_type@ && o.gtk_enabled == status.gtk_enabled && o.gtk_dark
                == status.gtk_dark,
    {
        if status.enabled {
            Some(
                KdeWatcherOptions {
                    poll_interval_secs: status.poll_interval_secs,
                    scheme_type: clone_string(&status.scheme_type),
                    gtk_enabled: status.gtk_enabled,
                    gtk_dark: status.gtk_dark,
                },
            )
        } else {
            None
        }
    }
}

impl KdeWatcherSnapshot {
    /// The status to persist for this snapshot.
    pub fn service_status(&self, enabled: bool) -> (r: KdeServiceStatus)
        ensures
            status_matches(r, *self, enabled),
    {
        KdeServiceStatus {
            enabled,
            run_in_background: self.run_in_background,
            current_wallpaper: clone_opt(&self.last_handled_wallpaper),
            poll_interval_secs: self.poll_interval_secs,
            scheme_type: clone_string(&self.scheme_type),
            gtk_enabled: self.gtk_enabled,
            gtk_dark: self.gtk_dark,
        }
    }

    /// Stopping: the watcher no longer runs or processes anything.
    pub fn mark_stopped(&mut self)
        ensures
            !final(self).enabled,
            !final(self).is_processing,
            final(self).status_message@ == stopped_message(),
            final(self).run_in_background == old(self).run_in_background,
            opt_view(final(self).current_wallpaper) == opt_view(old(self).current_wallpaper),
            opt_view(final(self).last_handled_wallpaper) == opt_view(
                old(self).last_handled_wallpaper,
            ),
            final(self).poll_interval_secs == old(self).poll_interval_secs,
            final(self).scheme_type@ == old(self).scheme_type@,
            final(self).gtk_enabled == old(self).gtk_enabled,
            final(self).gtk_dark == old(self).gtk_dark,
            opt_view(final(self).last_error) == opt_view(old(self).last_error),
            forall|w: Seq<char>| !handles(*final(self), w),
    {
        self.enabled = false;
        self.is_processing = false;
        self.status_message = String::from_str("Service stopped.");
    }

    /// A stopped snapshot shows the persisted settings; a running one, or one
    /// with another message, stays as it is.
    pub fn with_persisted(self, persisted: KdeServiceStatus) -> (r: KdeWatcherSnapshot)
        ensures
            (self.enabled || self.status_message@ != stopped_message()) ==> r == self,
            !(self.enabled || self.status_message@ != stopped_message()) ==> {
                &&& r.poll_interval_secs == persisted.poll_interval_secs
                &&& r.scheme_type == persisted.scheme_type
                &&& r.run_in_background == persisted.run_in_background
                &&& r.last_handled_wallpaper == persisted.current_wallpaper
                &&& r.gtk_enabled == persisted.gtk_enabled
                &&& r.gtk_dark == persisted.gtk_dark
                &&& r.enabled == self.enabled
                &&& r.current_wallpaper == self.current_wallpaper
                &&& r.is_processing == self.is_processing
                &&& r.status_message == self.status_message
                &&& r.last_error == self.last_error
            },
    {
        if self.enabled || !crate::context::str_eq(self.status_message.as_str(), "Service stopped.") {
            return self;
        }
        let mut next = self;
        next.poll_interval_secs = persisted.poll_interval_secs;
        next.scheme_type = persisted.scheme_type;
        next.run_in_background = persisted.run_in_background;
        next.last_handled_wallpaper = persisted.current_wallpaper;
        next.gtk_enabled = persisted.gtk_enabled;
        next.gtk_dark = persisted.gtk_dark;
        next
    }

    /// The interface reports a wallpaper as handled: it becomes the current
    /// and last handled one, so the watcher does not process it again.
    pub fn mark_handled(&mut self, wallpaper_path: &str)
        ensures
            opt_view(final(self).current_wallpaper) == Some(wallpaper_path@),
            opt_view(final(self).last_handled_wallpaper) == Some(wallpaper_path@),
            !final(self).is_processing,
            final(self).status_message@ == (if old(self).enabled {
                "Wallpaper handled by Matugen Studio: "@ + wallpaper_label(wallpaper_path@) + "."@
            } else {
                stopped_message()
            }),
            final(self).last_error is None,
            final(self).enabled == old(self).enabled,
            final(self).run_in_background == old(self).run_in_background,
            final(self).poll_interval_secs == old(self).poll_interval_secs,
            final(self).scheme_type@ == old(self).scheme_type@,
            final(self).gtk_enabled == old(self).gtk_enabled,
            final(self).gtk_dark == old(self).gtk_dark,
            !handles(*final(self), wallpaper_path@),
    {
        self.current_wallpaper = Some(clone_string(&String::from_str(wallpaper_path)));
        self.last_handled_wallpaper = Some(String::from_str(wallpaper_path));
        self.is_processing = false;
        self.status_message = if self.enabled {
            let mut m: Vec<char> = Vec::new();
            text::push_str(&mut m, "Wallpaper handled by Matugen Studio: ");
            let name = wallpaper_file_name(wallpaper_path);
            text::push_str(&mut m, name.as_str());
            text::push_str(&mut m, ".");
            text::string_of(&m)
        } else {
            String::from_str("Service stopped.")
        };
        self.last_error = None;
    }

    pub fn set_run_in_background(&mut self, enabled: bool)
        ensures
            *final(self) == (KdeWatcherSnapshot { run_in_background: enabled, ..*old(self) }),
    {
        self.run_in_background = enabled;
    }

    /// Starting the watcher: it runs with the effective interval and scheme,
    /// the handled wallpaper carried over, and no error.
    pub fn begin_monitoring(
        &mut self,
        options: KdeWatcherOptions,
        run_in_background: bool,
        last_handled_wallpaper: Option<String>,
    )
        ensures
            final(self).enabled,
            final(self).run_in_background == run_in_background,
            !final(self).is_processing,
            final(self).poll_interval_secs == effective_interval(options.poll_interval_secs),
            final(self).scheme_type@ == effective_scheme(options.scheme_type@),
            final(self).gtk_enabled == options.gtk_enabled,
            final(self).gtk_dark == options.gtk_dark,
            final(self).last_handled_wallpaper == last_handled_wallpaper,
            final(self).status_message@ == "Monitoring KDE wallpaper changes."@,
            final(self).last_error is None,
            final(self).current_wallpaper == old(self).current_wallpaper,
    {
        let poll: u64 = if options.poll_interval_secs < 5 {
            5
        } else if options.poll_interval_secs > 3600 {
            3600
        } else {
            options.poll_interval_secs
        };
        let sv = text::chars_of(options.scheme_type.as_str());
        let st = text::trim_exec(&sv);
        let scheme = if st.len() == 0 {
            default_scheme_type()
        } else {
            options.scheme_type
        };
        self.enabled = true;
        self.run_in_background = run_in_background;
        self.is_processing = false;
        self.poll_interval_secs = poll;
        self.scheme_type = scheme;
        self.gtk_enabled = options.gtk_enabled;
        self.gtk_dark = options.gtk_dark;
        self.last_handled_wallpaper = last_handled_wallpaper;
        self.status_message = String::from_str("Monitoring KDE wallpaper changes.");
        self.last_error = None;
    }

    /// Whether the watcher takes up this wallpaper: it runs, is idle, and has
    /// not handled it last.
    pub fn should_handle(&self, wallpaper: &str) -> (r: bool)
        ensures
            r == handles(*self, wallpaper@),
    {
        if !self.enabled || self.is_processing {
            return false;
        }
        match &self.last_handled_wallpaper {
            Some(h) => !crate::context::str_eq(h.as_str(), wallpaper),
            None => true,
        }
    }

    /// KDE reported a wallpaper: it becomes the current one and any error clears.
    pub fn wallpaper_seen(&mut self, wallpaper: &str)
        ensures
            *final(self) == (KdeWatcherSnapshot {
                current_wallpaper: final(self).current_wallpaper,
                last_error: None,
                ..*old(self)
            }),
            opt_view(final(self).current_wallpaper) == Some(wallpaper@),
    {
        self.current_wallpaper = Some(String::from_str(wallpaper));
        self.last_error = None;
    }

    /// KDE reported no wallpaper.
    pub fn wallpaper_missing(&mut self)
        ensures
            *final(self) == (KdeWatcherSnapshot {
                current_wallpaper: None,
                status_message: final(self).status_message,
                ..*old(self)
            }),
            final(self).status_message@ == "KDE wallpaper not detected."@,
    {
        self.current_wallpaper = None;
        self.status_message = String::from_str("KDE wallpaper not detected.");
    }

    /// A theme is being generated from `wallpaper`; while it runs the watcher
    /// handles nothing else.
    pub fn processing_started(&mut self, wallpaper: &str)
        ensures
            *final(self) == (KdeWatcherSnapshot {
                is_processing: true,
                status_message: final(self).status_message,
                last_error: None,
                ..*old(self)
            }),
            final(self).status_message@ == "Wallpaper changed. Generating theme from "@
                + wallpaper_label(wallpaper@) + "."@,
            forall|w: Seq<char>| !handles(*final(self), w),
    {
        self.is_processing = true;
        let mut m: Vec<char> = Vec::new();
        text::push_str(&mut m, "Wallpaper changed. Generating theme from ");
        let name = wallpaper_file_name(wallpaper);
        text::push_str(&mut m, name.as_str());
        text::push_str(&mut m, ".");
        self.status_message = text::string_of(&m);
        self.last_error = None;
    }

    /// Generation from `wallpaper` ended: it counts as handled either way, and
    /// an error is kept for the interface.
    pub fn processing_finished(&mut self, wallpaper: &str, result: Result<(), String>)
        ensures
            !final(self).is_processing,
            opt_view(final(self).last_handled_wallpaper) == Some(wallpaper@),
            final(self).status_message@ == (match result {
                Ok(()) => "Theme applied from "@ + wallpaper_label(wallpaper@) + "."@,
                Err(_) => "Theme generation failed for "@ + wallpaper_label(wallpaper@) + "."@,
            }),
            final(self).last_error == (match result {
                Ok(()) => None,
                Err(e) => Some(e),
            }),
            final(self).enabled == old(self).enabled,
            final(self).run_in_background == old(self).run_in_background,
            final(self).current_wallpaper == old(self).current_wallpaper,
            final(self).poll_interval_secs == old(self).poll_interval_secs,
            final(self).scheme_type == old(self).scheme_type,
            final(self).gtk_enabled == old(self).gtk_enabled,
            final(self).gtk_dark == old(self).gtk_dark,
            !handles(*final(self), wallpaper@),
    {
        self.is_processing = false;
        self.last_handled_wallpaper = Some(String::from_str(wallpaper));
        let name = wallpaper_file_name(wallpaper);
        let mut m: Vec<char> = Vec::new();
        match result {
            Ok(()) => {
                text::push_str(&mut m, "Theme applied from ");
                text::push_str(&mut m, name.as_str());
                text::push_str(&mut m, ".");
                self.status_message = text::string_of(&m);
                self.last_error = None;
            },
            Err(e) => {
                text::push_str(&mut m, "Theme generation failed for ");
                text::push_str(&mut m, name.as_str());
                text::push_str(&mut m, ".");
                self.status_message = text::string_of(&m);
                self.last_error = Some(e);
            },
        }
    }

    /// KDE could not be queried.
    pub fn record_error(&mut self, error: String)
        ensures
            *final(self) == (KdeWatcherSnapshot {
                is_processing: false,
                last_error: Some(error),
                status_message: final(self).status_message,
                ..*old(self)
            }),
            final(self).status_message@ == "Wallpaper monitor could not query KDE."@,
    {
        self.is_processing = false;
        self.last_error = Some(error);
        self.status_message = String::from_str("Wallpaper monitor could not query KDE.");
    }
}


// ── Editing the generated scheme ─────────────────────────────────────────────

pub open spec fn key_view(v: KdeColorValue) -> (Seq<char>, Seq<char>) {
    (v.key@, v.hex@)
}

/// The scheme's value for each editable color that it has, as `#RRGGBB`.
pub open spec fn color_values_of(
    content: Seq<char>,
    ms: Seq<(Seq<char>, Seq<char>, Seq<char>)>,
) -> Seq<(Seq<char>, Seq<char>)>
    decreases ms.len(),
{
    if ms.len() == 0 {
        Seq::empty()
    } else {
        let rest = color_values_of(content, ms.drop_last());
        let m = ms.last();
        match read_ini_value_of(content, m.1, m.2) {
            Some(rgb) => rest.push((m.0, rgb_to_hex_of(rgb))),
            None => rest,
        }
    }
}

/// `get_kde_color_values` on the scheme text.
pub fn color_values(content: &str) -> (r: Vec<KdeColorValue>)
    ensures
        r@.map_values(|v: KdeColorValue| key_view(v)) == color_values_of(
            content@,
            kde_color_mappings_of(),
        ),
{
    let ms = kde_color_mappings();
    let ghost mv = kde_color_mappings_of();
    let mut out: Vec<KdeColorValue> = Vec::new();
    let mut i: usize = 0;
    while i < ms.len()
        invariant
            i <= ms.len(),
            mv == kde_color_mappings_of(),
            ms@.map_values(|m: KdeColorMapping| mapping_view(m)) == mv,
            out@.map_values(|v: KdeColorValue| key_view(v)) == color_values_of(
                content@,
                mv.take(i as int),
            ),
        decreases ms.len() - i,
    {
        assert(mv.take(i + 1).drop_last() =~= mv.take(i as int));
        assert(mv.take(i + 1).last() == mapping_view(ms@[i as int]));
        match read_ini_value(content, ms[i].section, ms[i].property) {
            Some(rgb) => {
                let v = KdeColorValue {
                    key: String::from_str(ms[i].key),
                    hex: rgb_to_hex(rgb.as_str()),
                };
                let ghost before = out@;
                out.push(v);
                assert(out@.map_values(|v: KdeColorValue| key_view(v)) =~= before.map_values(
                    |v: KdeColorValue| key_view(v),
                ).push(key_view(v)));
            },
            None => {},
        }
        i = i + 1;
    }
    assert(mv.take(ms.len() as int) =~= mv);
    out
}

/// The first mapping with interface key `key`.
pub open spec fn mapping_for(key: Seq<char>, ms: Seq<(Seq<char>, Seq<char>, Seq<char>)>) -> Option<
    (Seq<char>, Seq<char>, Seq<char>),
>
    decreases ms.len(),
{
    if ms.len() == 0 {
        None
    } else if ms[0].0 == key {
        Some(ms[0])
    } else {
        mapping_for(key, ms.drop_first())
    }
}

/// `apply_kde_color_values` reaches no panic: every value up to the first
/// refused one can be read.
pub open spec fn values_readable(vs: Seq<(Seq<char>, Seq<char>)>) -> bool
    decreases vs.len(),
{
    if vs.len() == 0 {
        true
    } else {
        match mapping_for(vs[0].0, kde_color_mappings_of()) {
            None => values_readable(vs.drop_first()),
            Some(_) => hex_input_readable(vs[0].1) && (hex_to_rgb_string_of(vs[0].1) is Ok
                ==> values_readable(vs.drop_first())),
        }
    }
}

/// Each value with a known key written into the scheme in turn, unknown keys
/// skipped, the first malformed color refused.
pub open spec fn apply_values_of(content: Seq<char>, vs: Seq<(Seq<char>, Seq<char>)>) -> Result<
    Seq<char>,
    Seq<char>,
>
    decreases vs.len(),
{
    if vs.len() == 0 {
        Ok(content)
    } else {
        match mapping_for(vs[0].0, kde_color_mappings_of()) {
            None => apply_values_of(content, vs.drop_first()),
            Some(m) => match hex_to_rgb_string_of(vs[0].1) {
                Ok(rgb) => apply_values_of(upsert_ini_value_of(content, m.1, m.2, rgb), vs.drop_first()),
                Err(e) => Err(e),
            },
        }
    }
}

fn mapping_for_exec(key: &str, ms: &Vec<KdeColorMapping>) -> (r: Option<usize>)
    ensures
        r matches Some(i) ==> i < ms.len() && mapping_for(
            key@,
            ms@.map_values(|m: KdeColorMapping| mapping_view(m)),
        ) == Some(mapping_view(ms@[i as int])),
        r is None ==> mapping_for(key@, ms@.map_values(|m: KdeColorMapping| mapping_view(m))) is None,
{
    let ghost mv = ms@.map_values(|m: KdeColorMapping| mapping_view(m));
    let mut i: usize = 0;
    assert(mv.skip(0) =~= mv);
    while i < ms.len()
        invariant
            i <= ms.len(),
            mv == ms@.map_values(|m: KdeColorMapping| mapping_view(m)),
            mapping_for(key@, mv.skip(i as int)) == mapping_for(key@, mv),
        decreases ms.len() - i,
    {
        assert(mv.skip(i as int)[0] == mapping_view(ms@[i as int]));
        if crate::context::str_eq(ms[i].key, key) {
            return Some(i);
        }
        assert(mv.skip(i as int).drop_first() =~= mv.skip(i + 1));
        i = i + 1;
    }
    None
}

/// The values of `apply_kde_color_values`, applied to the scheme text.
pub fn apply_color_values(content: &str, values: &Vec<KdeColorValue>) -> (r: Result<String, String>)
    requires
        values_readable(values@.map_values(|v: KdeColorValue| key_view(v))),
    ensures
        r matches Ok(s) ==> apply_values_of(content@, values@.map_values(|v: KdeColorValue| key_view(v)))
            == Ok::<Seq<char>, Seq<char>>(s@),
        r matches Err(e) ==> apply_values_of(content@, values@.map_values(|v: KdeColorValue| key_view(v)))
            == Err::<Seq<char>, Seq<char>>(e@),
{
    let ghost vv = values@.map_values(|v: KdeColorValue| key_view(v));
    let ms = kde_color_mappings();
    let mut current = String::from_str(content);
    let mut i: usize = 0;
    assert(vv.skip(0) =~= vv);
    while i < values.len()
        invariant
            i <= values.len(),
            vv == values@.map_values(|v: KdeColorValue| key_view(v)),
            ms@.map_values(|m: KdeColorMapping| mapping_view(m)) == kde_color_mappings_of(),
            values_readable(vv.skip(i as int)),
            apply_values_of(content@, vv) == apply_values_of(current@, vv.skip(i as int)),
        decreases values.len() - i,
    {
        let ghost rest = vv.skip(i as int);
        assert(rest[0] == key_view(values@[i as int]));
        assert(rest.drop_first() =~= vv.skip(i + 1));
        match mapping_for_exec(values[i].key.as_str(), &ms) {
            None => {},
            Some(k) => {
                let rgb = hex_to_rgb_string(values[i].hex.as_str())?;
                current = upsert_ini_value(current.as_str(), ms[k].section, ms[k].property, rgb.as_str());
            },
        }
        i = i + 1;
    }
    Ok(current)
}


// ── An edited color reads back ───────────────────────────────────────────────

/// The scheme group and property of an editable color.
pub open spec fn editable(key: Seq<char>) -> (Seq<char>, Seq<char>, Seq<char>) {
    mapping_for(key, kde_color_mappings_of())->0
}

/// Every character is an ASCII letter.
spec fn letters(s: Seq<char>) -> bool
    decreases s.len(),
{
    s.len() == 0 || (text::is_ascii_alpha(s[0]) && letters(s.drop_first()))
}

proof fn lemma_letters_each(s: Seq<char>)
    requires
        letters(s),
    ensures
        forall|j: int| 0 <= j < s.len() ==> text::is_ascii_alpha(#[trigger] s[j]),
    decreases s.len(),
{
    if s.len() > 0 {
        lemma_letters_each(s.drop_first());
        assert forall|j: int| 0 <= j < s.len() implies text::is_ascii_alpha(#[trigger] s[j]) by {
            if j > 0 {
                assert(s[j] == s.drop_first()[j - 1]);
            }
        }
    }
}

/// The property of every editable color is a word of ASCII letters.
proof fn lemma_mapping_property_letters(key: Seq<char>)
    requires
        mapping_for(key, kde_color_mappings_of()) is Some,
    ensures
        editable(key).2.len() > 0,
        letters(editable(key).2),
{
    reveal_strlit("BackgroundNormal");
    reveal_strlit("ForegroundNormal");
    reveal_strlit("ForegroundLink");
    reveal_strlit("ForegroundNegative");
    reveal_strlit("ForegroundNeutral");
    reveal_strlit("ForegroundVisited");
    reveal_with_fuel(letters, 20);
    reveal_with_fuel(mapping_for, 10);
}

/// `r,g,b` holds no line break and ends in a digit.
proof fn lemma_rgb_text_plain(a: u8, b: u8, c: u8)
    ensures
        text::free_of(rgb_text(a, b, c), '\n'),
        rgb_text(a, b, c).len() > 0,
        text::is_ascii_digit(rgb_text(a, b, c).last()),
{
    reveal_strlit(",");
    text::lemma_dec_digits(a as nat);
    text::lemma_dec_digits(b as nat);
    text::lemma_dec_digits(c as nat);
    let t = rgb_text(a, b, c);
    let (da, db, dc) = (text::dec(a as nat), text::dec(b as nat), text::dec(c as nat));
    assert forall|j: int| 0 <= j < t.len() implies #[trigger] t[j] != '\n' by {
        if j < da.len() {
            assert(t[j] == da[j]);
        } else if j == da.len() {
            assert(t[j] == ',');
        } else if j < da.len() + 1 + db.len() {
            assert(t[j] == db[j - da.len() - 1]);
        } else if j == da.len() + 1 + db.len() {
            assert(t[j] == ',');
        } else {
            assert(t[j] == dc[j - da.len() - 2 - db.len()]);
        }
    }
    assert(t.last() == dc.last());
}

/// A color edited in the KDE scheme is the color then read from it: applying
/// one `#RRGGBB` value to an editable color whose group is in the scheme
/// writes it as `r,g,b`, and reading that entry back as hexadecimal gives the
/// same color in upper case.
pub proof fn lemma_edited_color_reads_back(content: Seq<char>, key: Seq<char>, hex: Seq<char>)
    requires
        crate::settings::valid_override_color(hex),
        mapping_for(key, kde_color_mappings_of()) is Some,
        has_group(content, editable(key).1),
    ensures
        ({
            let m = editable(key);
            let written = upsert_ini_value_of(content, m.1, m.2, rgb_str_of(hex));
            &&& apply_values_of(content, seq![(key, hex)]) == Ok::<Seq<char>, Seq<char>>(written)
            &&& read_ini_value_of(written, m.1, m.2) == Some(rgb_str_of(hex))
            &&& rgb_to_hex_of(rgb_str_of(hex)) == seq!['#'] + text::upper(hex.skip(1))
        }),
{
    let m = editable(key);
    lemma_hex_rgb_hex(hex);
    let ch = rgb_channels(hex)->0;
    lemma_rgb_text_plain(ch[0], ch[1], ch[2]);
    lemma_mapping_property_letters(key);
    lemma_letters_each(m.2);
    let rgb = rgb_str_of(hex);
    assert(plain_entry(m.2, rgb));
    lemma_header_untouched(m.1, m.2);
    lemma_read_after_upsert(content, m.1, m.2, rgb);
    let vs = seq![(key, hex)];
    assert(vs[0] == (key, hex));
    assert(vs.drop_first() =~= Seq::<(Seq<char>, Seq<char>)>::empty());
    assert(mapping_for(vs[0].0, kde_color_mappings_of()) == Some(m));
    assert(hex_to_rgb_string_of(vs[0].1) == Ok::<Seq<char>, Seq<char>>(rgb));
    let written = upsert_ini_value_of(content, m.1, m.2, rgb);
    assert(apply_values_of(written, vs.drop_first()) == Ok::<Seq<char>, Seq<char>>(written));
    assert(apply_values_of(content, vs) == apply_values_of(written, vs.drop_first()));
    assert(trim(hex) == hex) by {
        assert(!text::is_ws(hex[0]));
        assert(text::trim_start(hex) == hex);
        assert(hex.last() == hex[6]);
        assert(text::is_hex_digit(hex[6]));
        assert(text::trim_end(hex) == hex);
    }
}

/// Text that is not three numbers separated by commas converts to black.
pub proof fn lemma_rgb_fallback(rgb: Seq<char>)
    requires
        parsed_channels(text::split_char(rgb, ',')).len() != 3,
    ensures
        rgb_to_hex_of(rgb) == "#000000"@,
{
}

// ── Every mapped color reads back from a generated scheme ────────────────────

/// A color value that stands on a line of its own as written: no line
/// break, and no whitespace at its end.
pub open spec fn line_value(v: Seq<char>) -> bool {
    &&& text::free_of(v, '\n')
    &&& v.len() > 0 ==> !text::is_ws(v.last())
}

/// The colors of the twelve-key groups can be written on lines.
pub open spec fn rgb_lines_ok(c: RgbTexts) -> bool {
    &&& line_value(c.surface) && line_value(c.on_surface) && line_value(c.on_surface_variant)
    &&& line_value(c.primary) && line_value(c.on_primary) && line_value(c.secondary)
    &&& line_value(c.tertiary) && line_value(c.error) && line_value(c.surface_container)
    &&& line_value(c.surface_container_high) && line_value(c.surface_container_highest)
    &&& line_value(c.surface_container_low) && line_value(c.link) && line_value(c.negative)
    &&& line_value(c.neutral) && line_value(c.positive) && line_value(c.visited)
}

proof fn lemma_group_keys_plain(v: Seq<char>, q: int)
    requires
        0 <= q < 12,
        line_value(v),
    ensures
        plain_entry(group_keys()[q], v),
{
    reveal_strlit("BackgroundAlternate");
    reveal_strlit("BackgroundNormal");
    reveal_strlit("DecorationFocus");
    reveal_strlit("DecorationHover");
    reveal_strlit("ForegroundActive");
    reveal_strlit("ForegroundInactive");
    reveal_strlit("ForegroundLink");
    reveal_strlit("ForegroundNegative");
    reveal_strlit("ForegroundNeutral");
    reveal_strlit("ForegroundNormal");
    reveal_strlit("ForegroundPositive");
    reveal_strlit("ForegroundVisited");
    let k = group_keys()[q];
    assert forall|i: int| 0 <= i < k.len() implies #[trigger] k[i] != '=' && k[i] != '\n' by {}
}

/// The lines of `key=value` entries.
proof fn lemma_kv_lines_lines(keys: Seq<Seq<char>>, vals: Seq<Seq<char>>)
    requires
        keys.len() <= vals.len(),
        forall|i: int| 0 <= i < keys.len() ==> plain_entry(#[trigger] keys[i], vals[i]),
    ensures
        lines(kv_lines(keys, vals)) == Seq::new(keys.len(), |i: int| kv_line(keys[i], vals[i])),
        keys.len() > 0 ==> kv_lines(keys, vals).len() > 0 && kv_lines(keys, vals).last() == '\n',
    decreases keys.len(),
{
    reveal_strlit("=");
    reveal_strlit("\n");
    if keys.len() > 0 {
        let dl = keys.drop_last();
        let k = keys.last();
        let v = vals[keys.len() - 1];
        assert forall|i: int| 0 <= i < dl.len() implies plain_entry(#[trigger] dl[i], vals[i]) by {
            assert(dl[i] == keys[i]);
        }
        lemma_kv_lines_lines(dl, vals);
        assert(plain_entry(keys[keys.len() - 1], v));
        lemma_kv_facts(k, v);
        let line = kv_line(k, v);
        assert(kv(k, v) =~= line.push('\n'));
        assert(!(line.len() > 0 && line.last() == '\r')) by {
            assert(line.last() == (if v.len() > 0 {
                v.last()
            } else {
                '='
            }));
        }
        text::lemma_lines_one(line);
        let prev = kv_lines(dl, vals);
        if dl.len() == 0 {
            assert(prev =~= Seq::<char>::empty());
            assert(prev + kv(k, v) =~= kv(k, v));
        } else {
            text::lemma_lines_append(prev, kv(k, v));
        }
        assert(lines(kv_lines(keys, vals)) =~= Seq::new(keys.len(), |i: int| kv_line(keys[i], vals[i])));
    }
}

/// The lines of a color group: its header, one entry per key, and a blank.
proof fn lemma_color_group_lines(title: Seq<char>, vals: Seq<Seq<char>>)
    requires
        text::free_of(title, '\n'),
        vals.len() == 12,
        forall|i: int| 0 <= i < 12 ==> line_value(#[trigger] vals[i]),
    ensures
        lines(color_group(title, vals)) == seq![group_header(title)] + Seq::new(12, |i: int| kv_line(group_keys()[i], vals[i]))
            + seq![Seq::<char>::empty()],
        color_group(title, vals).len() > 0,
        color_group(title, vals).last() == '\n',
{
    reveal_strlit("[");
    reveal_strlit("]\n");
    reveal_strlit("\n");
    let keys = group_keys();
    assert forall|i: int| 0 <= i < keys.len() implies plain_entry(#[trigger] keys[i], vals[i]) by {
        lemma_group_keys_plain(vals[i], i);
    }
    lemma_kv_lines_lines(keys, vals);
    let h = group_header(title);
    let k = kv_lines(keys, vals);
    let nl = seq!['\n'];
    assert(color_group(title, vals) =~= h.push('\n') + (k + nl));
    assert(text::free_of(h, '\n')) by {
        assert forall|i: int| 0 <= i < h.len() implies #[trigger] h[i] != '\n' by {
            if 0 < i < h.len() - 1 {
                assert(h[i] == title[i - 1]);
            }
        }
    }
    assert(h.last() == ']');
    text::lemma_lines_one(h);
    text::lemma_lines_append(h.push('\n'), k + nl);
    text::lemma_lines_append(k, nl);
    assert(Seq::<char>::empty().push('\n') =~= nl);
    text::lemma_lines_one(Seq::<char>::empty());
}

/// Inside the group, the reader finds the first entry of the key before the
/// next group.
proof fn lemma_read_in(ls: Seq<Seq<char>>, s: Seq<char>, p: Seq<char>, j: int)
    requires
        0 <= j < ls.len(),
        forall|k: int| 0 <= k < j ==> !is_group_line(trim(#[trigger] ls[k])),
        has_key(trim(ls[j]), p),
        !is_group_line(trim(ls[j])),
    ensures
        read_lines(ls, true, s, p) is Some,
    decreases j,
{
    if j > 0 {
        assert(!is_group_line(trim(ls[0])));
        let rest = ls.drop_first();
        assert forall|k: int| 0 <= k < j - 1 implies !is_group_line(trim(#[trigger] rest[k])) by {
            assert(rest[k] == ls[k + 1]);
        }
        assert(rest[j - 1] == ls[j]);
        if !has_key(trim(ls[0]), p) {
            lemma_read_in(rest, s, p, j - 1);
        }
    }
}

/// A group header followed, before any other group, by an entry of the key:
/// the reader finds a value.
proof fn lemma_read_some(ls: Seq<Seq<char>>, b: bool, s: Seq<char>, p: Seq<char>, i: int, j: int)
    requires
        0 <= i < j < ls.len(),
        trim(ls[i]) == group_header(s),
        forall|k: int| i < k < j ==> !is_group_line(trim(#[trigger] ls[k])),
        has_key(trim(ls[j]), p),
        !is_group_line(trim(ls[j])),
    ensures
        read_lines(ls, b, s, p) is Some,
    decreases i,
{
    let rest = ls.drop_first();
    assert(rest[j - 1] == ls[j]);
    if i == 0 {
        let h = group_header(s);
        assert(is_group_line(h)) by {
            assert(h[0] == '[');
            assert(h.last() == ']');
        }
        assert forall|k: int| 0 <= k < j - 1 implies !is_group_line(trim(#[trigger] rest[k])) by {
            assert(rest[k] == ls[k + 1]);
        }
        lemma_read_in(rest, s, p, j - 1);
    } else {
        assert(rest[i - 1] == ls[i]);
        assert forall|k: int| i - 1 < k < j - 1 implies !is_group_line(trim(#[trigger] rest[k])) by {
            assert(rest[k] == ls[k + 1]);
        }
        let t = trim(ls[0]);
        if is_group_line(t) {
            lemma_read_some(rest, t == group_header(s), s, p, i - 1, j - 1);
        } else if !(b && has_key(t, p)) {
            lemma_read_some(rest, b, s, p, i - 1, j - 1);
        }
    }
}

/// A text with a color group in it: each key of the group reads back.
proof fn lemma_group_readable(
    pre: Seq<char>,
    title: Seq<char>,
    vals: Seq<Seq<char>>,
    post: Seq<char>,
    q: int,
)
    requires
        pre.len() > 0,
        pre.last() == '\n',
        text::free_of(title, '\n'),
        vals.len() == 12,
        forall|i: int| 0 <= i < 12 ==> line_value(#[trigger] vals[i]),
        0 <= q < 12,
    ensures
        read_ini_value_of(pre + color_group(title, vals) + post, title, group_keys()[q]) is Some,
{
    lemma_color_group_lines(title, vals);
    let cg = color_group(title, vals);
    assert(pre + cg + post =~= pre + (cg + post));
    text::lemma_lines_append(pre, cg + post);
    text::lemma_lines_append(cg, post);
    let lp = lines(pre);
    let ls = lines(pre + cg + post);
    let block = lines(cg);
    assert(ls == lp + (block + lines(post)));
    let i = lp.len() as int;
    let j = i + 1 + q;
    let h = group_header(title);
    assert(ls[i] == h);
    assert(trim(h) == h) by {
        assert(h[0] == '[');
        assert(h.last() == ']');
        assert(text::trim_start(h) == h);
        assert(text::trim_end(h) == h);
    }
    assert forall|k: int| i < k <= j implies #[trigger] ls[k] == kv_line(group_keys()[k - i - 1], vals[k - i - 1]) by {
        assert(ls[k] == block[k - i]);
    }
    assert forall|k: int| i < k < j implies !is_group_line(trim(#[trigger] ls[k])) by {
        lemma_group_keys_plain(vals[k - i - 1], k - i - 1);
        lemma_kv_facts(group_keys()[k - i - 1], vals[k - i - 1]);
    }
    lemma_group_keys_plain(vals[q], q);
    lemma_kv_facts(group_keys()[q], vals[q]);
    lemma_read_some(ls, false, title, group_keys()[q], i, j);
}

proof fn lemma_rgb_str_line(hex: Seq<char>)
    ensures
        line_value(rgb_str_of(hex)),
{
    let c = rgb_channels(hex)->0;
    lemma_rgb_text_plain(c[0], c[1], c[2]);
}

/// The colors of a generated scheme always stand on lines of their own.
proof fn lemma_generated_colors_on_lines(ctx: SchemeContext)
    ensures
        rgb_lines_ok(rgb_texts_of(ctx)),
{
    lemma_rgb_str_line(color_lookup(ctx, "surface"@, "default"@)->0);
    lemma_rgb_str_line(color_lookup(ctx, "on_surface"@, "default"@)->0);
    lemma_rgb_str_line(color_lookup(ctx, "on_surface_variant"@, "default"@)->0);
    lemma_rgb_str_line(color_lookup(ctx, "primary"@, "default"@)->0);
    lemma_rgb_str_line(color_lookup(ctx, "on_primary"@, "default"@)->0);
    lemma_rgb_str_line(color_lookup(ctx, "secondary"@, "default"@)->0);
    lemma_rgb_str_line(color_lookup(ctx, "tertiary"@, "default"@)->0);
    lemma_rgb_str_line(color_lookup(ctx, "error"@, "default"@)->0);
    let c = rgb_texts_of(ctx);
    assert forall|hex: Seq<char>| line_value(#[trigger] rgb_str_of(hex)) by {
        lemma_rgb_str_line(hex);
    }
}

/// A color group ends with a line break.
proof fn lemma_group_ends(title: Seq<char>, v: Seq<Seq<char>>)
    ensures
        color_group(title, v).len() > 0,
        color_group(title, v).last() == '\n',
{
    reveal_strlit("\n");
    let s = "["@ + title + "]\n"@ + kv_lines(group_keys(), v);
    assert(color_group(title, v) == s + "\n"@);
}

/// A text that ends with a line break still does after more is appended.
proof fn lemma_ends_after(a: Seq<char>, b: Seq<char>)
    requires
        b.len() > 0,
        b.last() == '\n',
    ensures
        (a + b).len() > 0,
        (a + b).last() == '\n',
{
}

proof fn lemma_surface_lines(alt: Seq<char>, normal: Seq<char>, c: RgbTexts)
    requires
        rgb_lines_ok(c),
        line_value(alt),
        line_value(normal),
    ensures
        forall|i: int| 0 <= i < 12 ==> line_value(#[trigger] surface_group(alt, normal, c)[i]),
{
}

proof fn lemma_selection_lines(c: RgbTexts)
    requires
        rgb_lines_ok(c),
    ensures
        forall|i: int| 0 <= i < 12 ==> line_value(#[trigger] selection_group(c)[i]),
{
}

proof fn lemma_effects_end(c: RgbTexts)
    ensures
        effects_text(c).len() > 0,
        effects_text(c).last() == '\n',
{
    reveal_strlit("\nColorAmount=0.025\nColorEffect=2\nContrastAmount=0.1\nContrastEffect=2\nEnable=false\nIntensityAmount=0\nIntensityEffect=0\n\n");
}

/// Each key of the button group reads back from a generated scheme.
proof fn lemma_button_reads(c: RgbTexts, name: Seq<char>, q: int)
    requires
        rgb_lines_ok(c),
        0 <= q < 12,
    ensures
        read_ini_value_of(scheme_text(c, name), "Colors:Button"@, group_keys()[q]) is Some,
{
    reveal_strlit("Colors:Button");
    let e = effects_text(c);
    let sg = surface_group(c.surface_container_high, c.surface_container, c);
    let g = color_group("Colors:Button"@, sg);
    let rest = groups_text(c).subrange(g.len() as int, groups_text(c).len() as int) + closing_text(c, name);
    assert(groups_text(c) =~= g + groups_text(c).subrange(g.len() as int, groups_text(c).len() as int));
    assert(scheme_text(c, name) =~= e + g + rest);
    lemma_effects_end(c);
    lemma_surface_lines(c.surface_container_high, c.surface_container, c);
    lemma_group_readable(e, "Colors:Button"@, sg, rest, q);
}

/// Each key of the selection group reads back from a generated scheme.
#[verifier::spinoff_prover]
#[verifier::rlimit(40)]
proof fn lemma_selection_reads(c: RgbTexts, name: Seq<char>, q: int)
    requires
        rgb_lines_ok(c),
        0 <= q < 12,
    ensures
        read_ini_value_of(scheme_text(c, name), "Colors:Selection"@, group_keys()[q]) is Some,
{
    reveal_strlit("Colors:Selection");
    let e = effects_text(c);
    let g1 = color_group("Colors:Button"@, surface_group(c.surface_container_high, c.surface_container, c));
    let g2 = color_group("Colors:Complementary"@, surface_group(c.surface_container_high, c.surface, c));
    let g3 = color_group("Colors:Header"@, surface_group(c.surface_container, c.surface, c));
    let g4 = color_group("Colors:Header][Inactive"@, surface_group(c.surface_container, c.surface, c));
    let sel = selection_group(c);
    let g5 = color_group("Colors:Selection"@, sel);
    let g6 = color_group("Colors:Tooltip"@, surface_group(c.surface_container_highest, c.surface_container_high, c));
    let g7 = color_group("Colors:View"@, surface_group(c.surface_container_low, c.surface, c));
    let g8 = color_group("Colors:Window"@, surface_group(c.surface_container, c.surface_container_low, c));
    let pre = e + g1 + g2 + g3 + g4;
    let post = g6 + g7 + g8 + closing_text(c, name);
    assert(scheme_text(c, name) =~= pre + g5 + post);
    lemma_group_ends("Colors:Header][Inactive"@, surface_group(c.surface_container, c.surface, c));
    lemma_ends_after(e + g1 + g2 + g3, g4);
    lemma_selection_lines(c);
    lemma_group_readable(pre, "Colors:Selection"@, sel, post, q);
}

/// Each key of the view group reads back from a generated scheme.
#[verifier::spinoff_prover]
proof fn lemma_view_reads(c: RgbTexts, name: Seq<char>, q: int)
    requires
        rgb_lines_ok(c),
        0 <= q < 12,
    ensures
        read_ini_value_of(scheme_text(c, name), "Colors:View"@, group_keys()[q]) is Some,
{
    reveal_strlit("Colors:View");
    let e = effects_text(c);
    let g1 = color_group("Colors:Button"@, surface_group(c.surface_container_high, c.surface_container, c));
    let g2 = color_group("Colors:Complementary"@, surface_group(c.surface_container_high, c.surface, c));
    let g3 = color_group("Colors:Header"@, surface_group(c.surface_container, c.surface, c));
    let g4 = color_group("Colors:Header][Inactive"@, surface_group(c.surface_container, c.surface, c));
    let g5 = color_group("Colors:Selection"@, selection_group(c));
    let sg6 = surface_group(c.surface_container_highest, c.surface_container_high, c);
    let g6 = color_group("Colors:Tooltip"@, sg6);
    let sg = surface_group(c.surface_container_low, c.surface, c);
    let g7 = color_group("Colors:View"@, sg);
    let g8 = color_group("Colors:Window"@, surface_group(c.surface_container, c.surface_container_low, c));
    let pre = e + g1 + g2 + g3 + g4 + g5 + g6;
    let post = g8 + closing_text(c, name);
    assert(scheme_text(c, name) =~= pre + g7 + post);
    lemma_group_ends("Colors:Tooltip"@, sg6);
    lemma_ends_after(e + g1 + g2 + g3 + g4 + g5, g6);
    lemma_surface_lines(c.surface_container_low, c.surface, c);
    lemma_group_readable(pre, "Colors:View"@, sg, post, q);
}

/// Each key of the window group reads back from a generated scheme.
#[verifier::spinoff_prover]
proof fn lemma_window_reads(c: RgbTexts, name: Seq<char>, q: int)
    requires
        rgb_lines_ok(c),
        0 <= q < 12,
    ensures
        read_ini_value_of(scheme_text(c, name), "Colors:Window"@, group_keys()[q]) is Some,
{
    reveal_strlit("Colors:Window");
    let e = effects_text(c);
    let g1 = color_group("Colors:Button"@, surface_group(c.surface_container_high, c.surface_container, c));
    let g2 = color_group("Colors:Complementary"@, surface_group(c.surface_container_high, c.surface, c));
    let g3 = color_group("Colors:Header"@, surface_group(c.surface_container, c.surface, c));
    let g4 = color_group("Colors:Header][Inactive"@, surface_group(c.surface_container, c.surface, c));
    let g5 = color_group("Colors:Selection"@, selection_group(c));
    let g6 = color_group("Colors:Tooltip"@, surface_group(c.surface_container_highest, c.surface_container_high, c));
    let sg7 = surface_group(c.surface_container_low, c.surface, c);
    let g7 = color_group("Colors:View"@, sg7);
    let sg = surface_group(c.surface_container, c.surface_container_low, c);
    let g8 = color_group("Colors:Window"@, sg);
    let pre = e + g1 + g2 + g3 + g4 + g5 + g6 + g7;
    let post = closing_text(c, name);
    assert(scheme_text(c, name) =~= pre + g8 + post);
    lemma_group_ends("Colors:View"@, sg7);
    lemma_ends_after(e + g1 + g2 + g3 + g4 + g5 + g6, g7);
    lemma_surface_lines(c.surface_container, c.surface_container_low, c);
    lemma_group_readable(pre, "Colors:Window"@, sg, post, q);
}

/// Every mapping's group is written with an entry of its key, so each reads
/// back from a scheme whose colors stand on lines of their own.
proof fn lemma_mappings_read_back(c: RgbTexts, name: Seq<char>)
    requires
        rgb_lines_ok(c),
    ensures
        forall|i: int| 0 <= i < kde_color_mappings_of().len() ==> read_ini_value_of(
            scheme_text(c, name),
            #[trigger] kde_color_mappings_of()[i].1,
            kde_color_mappings_of()[i].2,
        ) is Some,
{
    let m = kde_color_mappings_of();
    let k = group_keys();
    lemma_window_reads(c, name, 1);
    lemma_view_reads(c, name, 1);
    lemma_button_reads(c, name, 1);
    lemma_selection_reads(c, name, 1);
    lemma_window_reads(c, name, 9);
    lemma_window_reads(c, name, 6);
    lemma_window_reads(c, name, 7);
    lemma_window_reads(c, name, 8);
    lemma_window_reads(c, name, 11);
    assert(m[0].1 == "Colors:Window"@ && m[0].2 == k[1]);
    assert(m[1].1 == "Colors:View"@ && m[1].2 == k[1]);
    assert(m[2].1 == "Colors:Button"@ && m[2].2 == k[1]);
    assert(m[3].1 == "Colors:Selection"@ && m[3].2 == k[1]);
    assert(m[4].1 == "Colors:Window"@ && m[4].2 == k[9]);
    assert(m[5].1 == "Colors:Window"@ && m[5].2 == k[6]);
    assert(m[6].1 == "Colors:Window"@ && m[6].2 == k[7]);
    assert(m[7].1 == "Colors:Window"@ && m[7].2 == k[8]);
    assert(m[8].1 == "Colors:Window"@ && m[8].2 == k[11]);
}

/// Every color that the KDE mappings name can be read back from every scheme
/// that `generate_kde_colorscheme` writes, whatever its name.
pub proof fn lemma_generated_mappings_read_back(ctx: SchemeContext, name: Seq<char>)
    ensures
        forall|i: int| 0 <= i < kde_color_mappings_of().len() ==> read_ini_value_of(
            scheme_text(rgb_texts_of(ctx), name),
            #[trigger] kde_color_mappings_of()[i].1,
            kde_color_mappings_of()[i].2,
        ) is Some,
{
    lemma_generated_colors_on_lines(ctx);
    lemma_mappings_read_back(rgb_texts_of(ctx), name);
}

// ── The value each key of a generated scheme holds ──────────────────────────

/// No line of `s`, trimmed, is the header of group `t`.
pub open spec fn quiet(s: Seq<char>, t: Seq<char>) -> bool {
    forall|k: int| 0 <= k < lines(s).len() ==> trim(#[trigger] lines(s)[k]) != group_header(t)
}

proof fn lemma_quiet_append(a: Seq<char>, b: Seq<char>, t: Seq<char>)
    requires
        a.len() > 0,
        a.last() == '\n',
        quiet(a, t),
        quiet(b, t),
    ensures
        quiet(a + b, t),
{
    text::lemma_lines_append(a, b);
    let la = lines(a);
    let lb = lines(b);
    assert forall|k: int| 0 <= k < lines(a + b).len() implies trim(#[trigger] lines(a + b)[k]) != group_header(t) by {
        if k < la.len() {
            assert(lines(a + b)[k] == la[k]);
        } else {
            assert(lines(a + b)[k] == lb[k - la.len()]);
        }
    }
}

proof fn lemma_quiet_line(x: Seq<char>, t: Seq<char>)
    requires
        text::free_of(x, '\n'),
        !(x.len() > 0 && x.last() == '\r'),
        trim(x) != group_header(t),
    ensures
        quiet(x.push('\n'), t),
        x.push('\n').len() > 0,
        x.push('\n').last() == '\n',
{
    text::lemma_lines_one(x);
}

/// A line that starts with a word is never a group header.
proof fn lemma_word_line(x: Seq<char>, t: Seq<char>)
    requires
        x.len() > 0,
        x[0] != '[',
        !text::is_ws(x[0]),
        !text::is_ws(x.last()),
        text::free_of(x, '\n'),
    ensures
        quiet(x.push('\n'), t),
        x.push('\n').len() > 0,
        x.push('\n').last() == '\n',
{
    text::lemma_trim_plain(x);
    assert(group_header(t)[0] == '[');
    lemma_quiet_line(x, t);
}

/// The blank line is never a group header.
proof fn lemma_blank_line(t: Seq<char>)
    ensures
        quiet(Seq::<char>::empty().push('\n'), t),
        Seq::<char>::empty().push('\n').len() > 0,
        Seq::<char>::empty().push('\n').last() == '\n',
{
    assert(trim(Seq::<char>::empty()) == Seq::<char>::empty());
    assert(group_header(t).len() >= 2);
    lemma_quiet_line(Seq::<char>::empty(), t);
}

/// The header of an effects group, `[ColorEffects:..]`, is not the header of
/// a `Colors:` group.
proof fn lemma_effects_header_line(x: Seq<char>, t: Seq<char>)
    requires
        x.len() > 6,
        x[0] == '[',
        x[6] == 'E',
        x.last() == ']',
        text::free_of(x, '\n'),
        t.len() > 5,
        t[5] == 's',
    ensures
        quiet(x.push('\n'), t),
        x.push('\n').len() > 0,
        x.push('\n').last() == '\n',
{
    text::lemma_trim_plain(x);
    assert(group_header(t)[6] == t[5]);
    lemma_quiet_line(x, t);
}

/// Two headers are the same only for the same group.
proof fn lemma_header_injective(a: Seq<char>, b: Seq<char>)
    requires
        group_header(a) == group_header(b),
    ensures
        a == b,
{
    assert(a =~= group_header(a).subrange(1, group_header(a).len() - 1));
    assert(b =~= group_header(b).subrange(1, group_header(b).len() - 1));
}

/// A color group of another title holds no header of `t`.
proof fn lemma_group_quiet(title: Seq<char>, vals: Seq<Seq<char>>, t: Seq<char>)
    requires
        text::free_of(title, '\n'),
        vals.len() == 12,
        forall|i: int| 0 <= i < 12 ==> line_value(#[trigger] vals[i]),
        title != t,
    ensures
        quiet(color_group(title, vals), t),
        color_group(title, vals).len() > 0,
        color_group(title, vals).last() == '\n',
{
    lemma_color_group_lines(title, vals);
    let ls = lines(color_group(title, vals));
    let h = group_header(title);
    assert(trim(h) == h) by {
        assert(h[0] == '[');
        assert(h.last() == ']');
        assert(text::trim_start(h) == h);
        assert(text::trim_end(h) == h);
    }
    let th = group_header(t);
    assert(is_group_line(th)) by {
        assert(th[0] == '[');
        assert(th.last() == ']');
    }
    assert forall|k: int| 0 <= k < ls.len() implies trim(#[trigger] ls[k]) != th by {
        if k == 0 {
            if h == th {
                lemma_header_injective(title, t);
            }
        } else if k <= 12 {
            assert(ls[k] == kv_line(group_keys()[k - 1], vals[k - 1]));
            lemma_group_keys_plain(vals[k - 1], k - 1);
            lemma_kv_facts(group_keys()[k - 1], vals[k - 1]);
        } else {
            assert(ls[k] == Seq::<char>::empty());
            assert(trim(Seq::<char>::empty()) == Seq::<char>::empty());
        }
    }
}

/// In the group, the reader gives the value of the first entry of the key.
proof fn lemma_read_in_exact(ls: Seq<Seq<char>>, s: Seq<char>, p: Seq<char>, j: int)
    requires
        0 <= j < ls.len(),
        forall|k: int| 0 <= k < j ==> !is_group_line(trim(#[trigger] ls[k])) && !has_key(trim(ls[k]), p),
        has_key(trim(ls[j]), p),
        !is_group_line(trim(ls[j])),
    ensures
        read_lines(ls, true, s, p) == Some(value_after_eq(trim(ls[j]))),
    decreases j,
{
    if j > 0 {
        assert(!is_group_line(trim(ls[0])) && !has_key(trim(ls[0]), p));
        let rest = ls.drop_first();
        assert forall|k: int| 0 <= k < j - 1 implies !is_group_line(trim(#[trigger] rest[k])) && !has_key(
            trim(rest[k]),
            p,
        ) by {
            assert(rest[k] == ls[k + 1]);
        }
        assert(rest[j - 1] == ls[j]);
        lemma_read_in_exact(rest, s, p, j - 1);
    }
}

/// The reader gives the value of the first entry of the key after the
/// group's first header, where no other group comes between.
proof fn lemma_read_exact(ls: Seq<Seq<char>>, s: Seq<char>, p: Seq<char>, i: int, j: int)
    requires
        0 <= i < j < ls.len(),
        trim(ls[i]) == group_header(s),
        forall|k: int| 0 <= k < i ==> trim(#[trigger] ls[k]) != group_header(s),
        forall|k: int| i < k < j ==> !is_group_line(trim(#[trigger] ls[k])) && !has_key(trim(ls[k]), p),
        has_key(trim(ls[j]), p),
        !is_group_line(trim(ls[j])),
    ensures
        read_lines(ls, false, s, p) == Some(value_after_eq(trim(ls[j]))),
    decreases i,
{
    let rest = ls.drop_first();
    assert(rest[j - 1] == ls[j]);
    if i == 0 {
        let h = group_header(s);
        assert(is_group_line(h)) by {
            assert(h[0] == '[');
            assert(h.last() == ']');
        }
        assert forall|k: int| 0 <= k < j - 1 implies !is_group_line(trim(#[trigger] rest[k])) && !has_key(
            trim(rest[k]),
            p,
        ) by {
            assert(rest[k] == ls[k + 1]);
        }
        lemma_read_in_exact(rest, s, p, j - 1);
    } else {
        assert(rest[i - 1] == ls[i]);
        assert(trim(ls[0]) != group_header(s));
        assert forall|k: int| 0 <= k < i - 1 implies trim(#[trigger] rest[k]) != group_header(s) by {
            assert(rest[k] == ls[k + 1]);
        }
        assert forall|k: int| i - 1 < k < j - 1 implies !is_group_line(trim(#[trigger] rest[k])) && !has_key(
            trim(rest[k]),
            p,
        ) by {
            assert(rest[k] == ls[k + 1]);
        }
        lemma_read_exact(rest, s, p, i - 1, j - 1);
    }
}

/// The twelve keys of a color group are different.
proof fn lemma_group_keys_distinct(a: int, b: int)
    requires
        0 <= a < 12,
        0 <= b < 12,
        a != b,
    ensures
        group_keys()[a] != group_keys()[b],
{
    reveal_strlit("BackgroundAlternate");
    reveal_strlit("BackgroundNormal");
    reveal_strlit("DecorationFocus");
    reveal_strlit("DecorationHover");
    reveal_strlit("ForegroundActive");
    reveal_strlit("ForegroundInactive");
    reveal_strlit("ForegroundLink");
    reveal_strlit("ForegroundNegative");
    reveal_strlit("ForegroundNeutral");
    reveal_strlit("ForegroundNormal");
    reveal_strlit("ForegroundPositive");
    reveal_strlit("ForegroundVisited");
    let ks = group_keys();
    assert(ks[0] == "BackgroundAlternate"@);
    assert(ks[1] == "BackgroundNormal"@);
    assert(ks[2] == "DecorationFocus"@);
    assert(ks[3] == "DecorationHover"@);
    assert(ks[4] == "ForegroundActive"@);
    assert(ks[5] == "ForegroundInactive"@);
    assert(ks[6] == "ForegroundLink"@);
    assert(ks[7] == "ForegroundNegative"@);
    assert(ks[8] == "ForegroundNeutral"@);
    assert(ks[9] == "ForegroundNormal"@);
    assert(ks[10] == "ForegroundPositive"@);
    assert(ks[11] == "ForegroundVisited"@);
    assert("BackgroundAlternate"@.len() != "BackgroundNormal"@.len());
    assert("BackgroundAlternate"@.len() != "DecorationFocus"@.len());
    assert("BackgroundAlternate"@.len() != "DecorationHover"@.len());
    assert("BackgroundAlternate"@.len() != "ForegroundActive"@.len());
    assert("BackgroundAlternate"@.len() != "ForegroundInactive"@.len());
    assert("BackgroundAlternate"@.len() != "ForegroundLink"@.len());
    assert("BackgroundAlternate"@.len() != "ForegroundNegative"@.len());
    assert("BackgroundAlternate"@.len() != "ForegroundNeutral"@.len());
    assert("BackgroundAlternate"@.len() != "ForegroundNormal"@.len());
    assert("BackgroundAlternate"@.len() != "ForegroundPositive"@.len());
    assert("BackgroundAlternate"@.len() != "ForegroundVisited"@.len());
    assert("BackgroundNormal"@.len() != "DecorationFocus"@.len());
    assert("BackgroundNormal"@.len() != "DecorationHover"@.len());
    assert("BackgroundNormal"@[0] != "ForegroundActive"@[0]);
    assert("BackgroundNormal"@.len() != "ForegroundInactive"@.len());
    assert("BackgroundNormal"@.len() != "ForegroundLink"@.len());
    assert("BackgroundNormal"@.len() != "ForegroundNegative"@.len());
    assert("BackgroundNormal"@.len() != "ForegroundNeutral"@.len());
    assert("BackgroundNormal"@[0] != "ForegroundNormal"@[0]);
    assert("BackgroundNormal"@.len() != "ForegroundPositive"@.len());
    assert("BackgroundNormal"@.len() != "ForegroundVisited"@.len());
    assert("DecorationFocus"@[10] != "DecorationHover"@[10]);
    assert("DecorationFocus"@.len() != "ForegroundActive"@.len());
    assert("DecorationFocus"@.len() != "ForegroundInactive"@.len());
    assert("DecorationFocus"@.len() != "ForegroundLink"@.len());
    assert("DecorationFocus"@.len() != "ForegroundNegative"@.len());
    assert("DecorationFocus"@.len() != "ForegroundNeutral"@.len());
    assert("DecorationFocus"@.len() != "ForegroundNormal"@.len());
    assert("DecorationFocus"@.len() != "ForegroundPositive"@.len());
    assert("DecorationFocus"@.len() != "ForegroundVisited"@.len());
    assert("DecorationHover"@.len() != "ForegroundActive"@.len());
    assert("DecorationHover"@.len() != "ForegroundInactive"@.len());
    assert("DecorationHover"@.len() != "ForegroundLink"@.len());
    assert("DecorationHover"@.len() != "ForegroundNegative"@.len());
    assert("DecorationHover"@.len() != "ForegroundNeutral"@.len());
    assert("DecorationHover"@.len() != "ForegroundNormal"@.len());
    assert("DecorationHover"@.len() != "ForegroundPositive"@.len());
    assert("DecorationHover"@.len() != "ForegroundVisited"@.len());
    assert("ForegroundActive"@.len() != "ForegroundInactive"@.len());
    assert("ForegroundActive"@.len() != "ForegroundLink"@.len());
    assert("ForegroundActive"@.len() != "ForegroundNegative"@.len());
    assert("ForegroundActive"@.len() != "ForegroundNeutral"@.len());
    assert("ForegroundActive"@[10] != "ForegroundNormal"@[10]);
    assert("ForegroundActive"@.len() != "ForegroundPositive"@.len());
    assert("ForegroundActive"@.len() != "ForegroundVisited"@.len());
    assert("ForegroundInactive"@.len() != "ForegroundLink"@.len());
    assert("ForegroundInactive"@[10] != "ForegroundNegative"@[10]);
    assert("ForegroundInactive"@.len() != "ForegroundNeutral"@.len());
    assert("ForegroundInactive"@.len() != "ForegroundNormal"@.len());
    assert("ForegroundInactive"@[10] != "ForegroundPositive"@[10]);
    assert("ForegroundInactive"@.len() != "ForegroundVisited"@.len());
    assert("ForegroundLink"@.len() != "ForegroundNegative"@.len());
    assert("ForegroundLink"@.len() != "ForegroundNeutral"@.len());
    assert("ForegroundLink"@.len() != "ForegroundNormal"@.len());
    assert("ForegroundLink"@.len() != "ForegroundPositive"@.len());
    assert("ForegroundLink"@.len() != "ForegroundVisited"@.len());
    assert("ForegroundNegative"@.len() != "ForegroundNeutral"@.len());
    assert("ForegroundNegative"@.len() != "ForegroundNormal"@.len());
    assert("ForegroundNegative"@[10] != "ForegroundPositive"@[10]);
    assert("ForegroundNegative"@.len() != "ForegroundVisited"@.len());
    assert("ForegroundNeutral"@.len() != "ForegroundNormal"@.len());
    assert("ForegroundNeutral"@.len() != "ForegroundPositive"@.len());
    assert("ForegroundNeutral"@[10] != "ForegroundVisited"@[10]);
    assert("ForegroundNormal"@.len() != "ForegroundPositive"@.len());
    assert("ForegroundNormal"@.len() != "ForegroundVisited"@.len());
    assert("ForegroundPositive"@.len() != "ForegroundVisited"@.len());
}

/// A line with one key has no other.
proof fn lemma_one_key(t: Seq<char>, a: Seq<char>, b: Seq<char>)
    requires
        has_key(t, a),
        a != b,
    ensures
        !has_key(t, b),
{
}

/// After a text in which no line is the header of `title`, a color group
/// of `title`: each of its keys reads back as the value written for it.
proof fn lemma_group_reads_exact(pre: Seq<char>, title: Seq<char>, vals: Seq<Seq<char>>, post: Seq<char>, q: int)
    requires
        pre.len() > 0,
        pre.last() == '\n',
        quiet(pre, title),
        text::free_of(title, '\n'),
        vals.len() == 12,
        forall|i: int| 0 <= i < 12 ==> line_value(#[trigger] vals[i]),
        0 <= q < 12,
    ensures
        read_ini_value_of(pre + color_group(title, vals) + post, title, group_keys()[q]) == Some(vals[q]),
{
    lemma_color_group_lines(title, vals);
    let cg = color_group(title, vals);
    assert(pre + cg + post =~= pre + (cg + post));
    text::lemma_lines_append(pre, cg + post);
    text::lemma_lines_append(cg, post);
    let lp = lines(pre);
    let ls = lines(pre + cg + post);
    let block = lines(cg);
    assert(ls == lp + (block + lines(post)));
    let i = lp.len() as int;
    let j = i + 1 + q;
    let h = group_header(title);
    assert(ls[i] == h);
    assert(trim(h) == h) by {
        assert(h[0] == '[');
        assert(h.last() == ']');
        assert(text::trim_start(h) == h);
        assert(text::trim_end(h) == h);
    }
    assert forall|k: int| 0 <= k < i implies trim(#[trigger] ls[k]) != group_header(title) by {
        assert(ls[k] == lp[k]);
    }
    assert forall|k: int| i < k <= j implies #[trigger] ls[k] == kv_line(group_keys()[k - i - 1], vals[k - i - 1]) by {
        assert(ls[k] == block[k - i]);
    }
    assert forall|k: int| i < k < j implies !is_group_line(trim(#[trigger] ls[k])) && !has_key(
        trim(ls[k]),
        group_keys()[q],
    ) by {
        lemma_group_keys_plain(vals[k - i - 1], k - i - 1);
        lemma_kv_facts(group_keys()[k - i - 1], vals[k - i - 1]);
        lemma_group_keys_distinct(k - i - 1, q);
        lemma_one_key(kv_line(group_keys()[k - i - 1], vals[k - i - 1]), group_keys()[k - i - 1], group_keys()[q]);
    }
    lemma_group_keys_plain(vals[q], q);
    lemma_kv_facts(group_keys()[q], vals[q]);
    lemma_read_exact(ls, title, group_keys()[q], i, j);
}

/// No line of the effects groups is the header of a `Colors:` group.
proof fn lemma_effects_quiet(c: RgbTexts, t: Seq<char>)
    requires
        line_value(c.on_surface_variant),
        line_value(c.surface),
        t.len() > 5,
        t[5] == 's',
    ensures
        quiet(effects_text(c), t),
        effects_text(c).len() > 0,
        effects_text(c).last() == '\n',
{
    reveal_strlit("[ColorEffects:Disabled]\nColor=");
    reveal_strlit("\nColorAmount=0.55\nColorEffect=3\nContrastAmount=0.65\nContrastEffect=1\nIntensityAmount=0.1\nIntensityEffect=2\n\n[ColorEffects:Inactive]\nChangeSelectionColor=true\nColor=");
    reveal_strlit("\nColorAmount=0.025\nColorEffect=2\nContrastAmount=0.1\nContrastEffect=2\nEnable=false\nIntensityAmount=0\nIntensityEffect=0\n\n");
    reveal_strlit("Color=");
    reveal_strlit("[ColorEffects:Disabled]");
    let v = c.on_surface_variant;
    let w = c.surface;
    let p1 = "[ColorEffects:Disabled]"@.push('\n');
    lemma_effects_header_line("[ColorEffects:Disabled]"@, t);
    let l2 = "Color="@ + v;
    let l12 = "Color="@ + w;
    assert(l2[0] == 'C' && l12[0] == 'C');
    assert(l2.last() == (if v.len() > 0 { v.last() } else { '=' }));
    assert(l12.last() == (if w.len() > 0 { w.last() } else { '=' }));
    assert(text::free_of(l2, '\n')) by {
        assert forall|j: int| 0 <= j < l2.len() implies #[trigger] l2[j] != '\n' by {
            if j >= 6 {
                assert(l2[j] == v[j - 6]);
            }
        }
    }
    assert(text::free_of(l12, '\n')) by {
        assert forall|j: int| 0 <= j < l12.len() implies #[trigger] l12[j] != '\n' by {
            if j >= 6 {
                assert(l12[j] == w[j - 6]);
            }
        }
    }
    lemma_word_line(l2, t);
    lemma_word_line(l12, t);
    let m0 = "ColorAmount=0.55"@.push('\n');
    reveal_strlit("ColorAmount=0.55");
    lemma_word_line("ColorAmount=0.55"@, t);
    let m1 = "ColorEffect=3"@.push('\n');
    reveal_strlit("ColorEffect=3");
    lemma_word_line("ColorEffect=3"@, t);
    let m2 = "ContrastAmount=0.65"@.push('\n');
    reveal_strlit("ContrastAmount=0.65");
    lemma_word_line("ContrastAmount=0.65"@, t);
    let m3 = "ContrastEffect=1"@.push('\n');
    reveal_strlit("ContrastEffect=1");
    lemma_word_line("ContrastEffect=1"@, t);
    let m4 = "IntensityAmount=0.1"@.push('\n');
    reveal_strlit("IntensityAmount=0.1");
    lemma_word_line("IntensityAmount=0.1"@, t);
    let m5 = "IntensityEffect=2"@.push('\n');
    reveal_strlit("IntensityEffect=2");
    lemma_word_line("IntensityEffect=2"@, t);
    let m6 = Seq::<char>::empty().push('\n');
    lemma_blank_line(t);
    let m7 = "[ColorEffects:Inactive]"@.push('\n');
    reveal_strlit("[ColorEffects:Inactive]");
    lemma_effects_header_line("[ColorEffects:Inactive]"@, t);
    let m8 = "ChangeSelectionColor=true"@.push('\n');
    reveal_strlit("ChangeSelectionColor=true");
    lemma_word_line("ChangeSelectionColor=true"@, t);
    let mr8 = m8;
    let mr7 = m7 + mr8;
    lemma_quiet_append(m7, mr8, t);
    let mr6 = m6 + mr7;
    lemma_quiet_append(m6, mr7, t);
    let mr5 = m5 + mr6;
    lemma_quiet_append(m5, mr6, t);
    let mr4 = m4 + mr5;
    lemma_quiet_append(m4, mr5, t);
    let mr3 = m3 + mr4;
    lemma_quiet_append(m3, mr4, t);
    let mr2 = m2 + mr3;
    lemma_quiet_append(m2, mr3, t);
    let mr1 = m1 + mr2;
    lemma_quiet_append(m1, mr2, t);
    let mr0 = m0 + mr1;
    lemma_quiet_append(m0, mr1, t);

    let n0 = "ColorAmount=0.025"@.push('\n');
    reveal_strlit("ColorAmount=0.025");
    lemma_word_line("ColorAmount=0.025"@, t);
    let n1 = "ColorEffect=2"@.push('\n');
    reveal_strlit("ColorEffect=2");
    lemma_word_line("ColorEffect=2"@, t);
    let n2 = "ContrastAmount=0.1"@.push('\n');
    reveal_strlit("ContrastAmount=0.1");
    lemma_word_line("ContrastAmount=0.1"@, t);
    let n3 = "ContrastEffect=2"@.push('\n');
    reveal_strlit("ContrastEffect=2");
    lemma_word_line("ContrastEffect=2"@, t);
    let n4 = "Enable=false"@.push('\n');
    reveal_strlit("Enable=false");
    lemma_word_line("Enable=false"@, t);
    let n5 = "IntensityAmount=0"@.push('\n');
    reveal_strlit("IntensityAmount=0");
    lemma_word_line("IntensityAmount=0"@, t);
    let n6 = "IntensityEffect=0"@.push('\n');
    reveal_strlit("IntensityEffect=0");
    lemma_word_line("IntensityEffect=0"@, t);
    let n7 = Seq::<char>::empty().push('\n');
    lemma_blank_line(t);
    let nr7 = n7;
    let nr6 = n6 + nr7;
    lemma_quiet_append(n6, nr7, t);
    let nr5 = n5 + nr6;
    lemma_quiet_append(n5, nr6, t);
    let nr4 = n4 + nr5;
    lemma_quiet_append(n4, nr5, t);
    let nr3 = n3 + nr4;
    lemma_quiet_append(n3, nr4, t);
    let nr2 = n2 + nr3;
    lemma_quiet_append(n2, nr3, t);
    let nr1 = n1 + nr2;
    lemma_quiet_append(n1, nr2, t);
    let nr0 = n0 + nr1;
    lemma_quiet_append(n0, nr1, t);

    let p2 = l2.push('\n');
    let p12 = l12.push('\n');
    let e = effects_text(c);
    assert("[ColorEffects:Disabled]\nColor="@ =~= p1 + "Color="@);
    assert("\nColorAmount=0.55\nColorEffect=3\nContrastAmount=0.65\nContrastEffect=1\nIntensityAmount=0.1\nIntensityEffect=2\n\n[ColorEffects:Inactive]\nChangeSelectionColor=true\nColor="@ =~= seq!['\n'] + mr0 + "Color="@);
    assert("\nColorAmount=0.025\nColorEffect=2\nContrastAmount=0.1\nContrastEffect=2\nEnable=false\nIntensityAmount=0\nIntensityEffect=0\n\n"@ =~= seq!['\n'] + nr0);
    assert(e =~= p1 + (p2 + (mr0 + (p12 + nr0))));
    lemma_quiet_append(p12, nr0, t);
    lemma_quiet_append(mr0, p12 + nr0, t);
    lemma_quiet_append(p2, mr0 + (p12 + nr0), t);
    lemma_quiet_append(p1, p2 + (mr0 + (p12 + nr0)), t);
}

/// Each key of the `Colors:Button` group of a generated scheme reads back as the
/// color written for it.
#[verifier::spinoff_prover]
#[verifier::rlimit(60)]
proof fn lemma_values_button(c: RgbTexts, name: Seq<char>)
    requires
        rgb_lines_ok(c),
    ensures
        forall|q: int| 0 <= q < 12 ==> read_ini_value_of(scheme_text(c, name), "Colors:Button"@, #[trigger] group_keys()[q])
            == Some(surface_group(c.surface_container_high, c.surface_container, c)[q]),
{
    reveal_strlit("Colors:Button");
    lemma_effects_quiet(c, "Colors:Button"@);
    let pre0 = effects_text(c);
    lemma_surface_lines(c.surface_container_high, c.surface_container, c);
    let gg = color_group("Colors:Button"@, surface_group(c.surface_container_high, c.surface_container, c));
    let post = color_group("Colors:Complementary"@, surface_group(c.surface_container_high, c.surface, c)) + color_group("Colors:Header"@, surface_group(c.surface_container, c.surface, c)) + color_group("Colors:Header][Inactive"@, surface_group(c.surface_container, c.surface, c)) + color_group("Colors:Selection"@, selection_group(c)) + color_group("Colors:Tooltip"@, surface_group(c.surface_container_highest, c.surface_container_high, c)) + color_group("Colors:View"@, surface_group(c.surface_container_low, c.surface, c)) + color_group("Colors:Window"@, surface_group(c.surface_container, c.surface_container_low, c)) + closing_text(c, name);
    assert(scheme_text(c, name) =~= pre0 + gg + post);
    assert forall|q: int| 0 <= q < 12 implies read_ini_value_of(scheme_text(c, name), "Colors:Button"@, #[trigger] group_keys()[q]) == Some(surface_group(c.surface_container_high, c.surface_container, c)[q]) by {
        lemma_group_reads_exact(pre0, "Colors:Button"@, surface_group(c.surface_container_high, c.surface_container, c), post, q);
    }
}

/// Each key of the `Colors:Complementary` group of a generated scheme reads back as the
/// color written for it.
#[verifier::spinoff_prover]
#[verifier::rlimit(60)]
proof fn lemma_values_complementary(c: RgbTexts, name: Seq<char>)
    requires
        rgb_lines_ok(c),
    ensures
        forall|q: int| 0 <= q < 12 ==> read_ini_value_of(scheme_text(c, name), "Colors:Complementary"@, #[trigger] group_keys()[q])
            == Some(surface_group(c.surface_container_high, c.surface, c)[q]),
{
    reveal_strlit("Colors:Complementary");
    reveal_strlit("Colors:Button");
    assert("Colors:Button"@.len() != "Colors:Complementary"@.len());
    lemma_effects_quiet(c, "Colors:Complementary"@);
    let pre0 = effects_text(c);
    lemma_surface_lines(c.surface_container_high, c.surface_container, c);
    let g0 = color_group("Colors:Button"@, surface_group(c.surface_container_high, c.surface_container, c));
    lemma_group_quiet("Colors:Button"@, surface_group(c.surface_container_high, c.surface_container, c), "Colors:Complementary"@);
    lemma_quiet_append(pre0, g0, "Colors:Complementary"@);
    lemma_ends_after(pre0, g0);
    let pre1 = pre0 + g0;
    lemma_surface_lines(c.surface_container_high, c.surface, c);
    let gg = color_group("Colors:Complementary"@, surface_group(c.surface_container_high, c.surface, c));
    let post = color_group("Colors:Header"@, surface_group(c.surface_container, c.surface, c)) + color_group("Colors:Header][Inactive"@, surface_group(c.surface_container, c.surface, c)) + color_group("Colors:Selection"@, selection_group(c)) + color_group("Colors:Tooltip"@, surface_group(c.surface_container_highest, c.surface_container_high, c)) + color_group("Colors:View"@, surface_group(c.surface_container_low, c.surface, c)) + color_group("Colors:Window"@, surface_group(c.surface_container, c.surface_container_low, c)) + closing_text(c, name);
    assert(scheme_text(c, name) =~= pre1 + gg + post);
    assert forall|q: int| 0 <= q < 12 implies read_ini_value_of(scheme_text(c, name), "Colors:Complementary"@, #[trigger] group_keys()[q]) == Some(surface_group(c.surface_container_high, c.surface, c)[q]) by {
        lemma_group_reads_exact(pre1, "Colors:Complementary"@, surface_group(c.surface_container_high, c.surface, c), post, q);
    }
}

/// Each key of the `Colors:Header` group of a generated scheme reads back as the
/// color written for it.
#[verifier::spinoff_prover]
#[verifier::rlimit(60)]
proof fn lemma_values_header(c: RgbTexts, name: Seq<char>)
    requires
        rgb_lines_ok(c),
    ensures
        forall|q: int| 0 <= q < 12 ==> read_ini_value_of(scheme_text(c, name), "Colors:Header"@, #[trigger] group_keys()[q])
            == Some(surface_group(c.surface_container, c.surface, c)[q]),
{
    reveal_strlit("Colors:Header");
    reveal_strlit("Colors:Button");
    assert("Colors:Button"@[7] != "Colors:Header"@[7]);
    reveal_strlit("Colors:Complementary");
    assert("Colors:Complementary"@.len() != "Colors:Header"@.len());
    lemma_effects_quiet(c, "Colors:Header"@);
    let pre0 = effects_text(c);
    lemma_surface_lines(c.surface_container_high, c.surface_container, c);
    let g0 = color_group("Colors:Button"@, surface_group(c.surface_container_high, c.surface_container, c));
    lemma_group_quiet("Colors:Button"@, surface_group(c.surface_container_high, c.surface_container, c), "Colors:Header"@);
    lemma_quiet_append(pre0, g0, "Colors:Header"@);
    lemma_ends_after(pre0, g0);
    let pre1 = pre0 + g0;
    lemma_surface_lines(c.surface_container_high, c.surface, c);
    let g1 = color_group("Colors:Complementary"@, surface_group(c.surface_container_high, c.surface, c));
    lemma_group_quiet("Colors:Complementary"@, surface_group(c.surface_container_high, c.surface, c), "Colors:Header"@);
    lemma_quiet_append(pre1, g1, "Colors:Header"@);
    lemma_ends_after(pre1, g1);
    let pre2 = pre1 + g1;
    lemma_surface_lines(c.surface_container, c.surface, c);
    let gg = color_group("Colors:Header"@, surface_group(c.surface_container, c.surface, c));
    let post = color_group("Colors:Header][Inactive"@, surface_group(c.surface_container, c.surface, c)) + color_group("Colors:Selection"@, selection_group(c)) + color_group("Colors:Tooltip"@, surface_group(c.surface_container_highest, c.surface_container_high, c)) + color_group("Colors:View"@, surface_group(c.surface_container_low, c.surface, c)) + color_group("Colors:Window"@, surface_group(c.surface_container, c.surface_container_low, c)) + closing_text(c, name);
    assert(scheme_text(c, name) =~= pre2 + gg + post);
    assert forall|q: int| 0 <= q < 12 implies read_ini_value_of(scheme_text(c, name), "Colors:Header"@, #[trigger] group_keys()[q]) == Some(surface_group(c.surface_container, c.surface, c)[q]) by {
        lemma_group_reads_exact(pre2, "Colors:Header"@, surface_group(c.surface_container, c.surface, c), post, q);
    }
}

/// Each key of the `Colors:Header][Inactive` group of a generated scheme reads back as the
/// color written for it.
#[verifier::spinoff_prover]
#[verifier::rlimit(60)]
proof fn lemma_values_header_inactive(c: RgbTexts, name: Seq<char>)
    requires
        rgb_lines_ok(c),
    ensures
        forall|q: int| 0 <= q < 12 ==> read_ini_value_of(scheme_text(c, name), "Colors:Header][Inactive"@, #[trigger] group_keys()[q])
            == Some(surface_group(c.surface_container, c.surface, c)[q]),
{
    reveal_strlit("Colors:Header][Inactive");
    reveal_strlit("Colors:Button");
    assert("Colors:Button"@.len() != "Colors:Header][Inactive"@.len());
    reveal_strlit("Colors:Complementary");
    assert("Colors:Complementary"@.len() != "Colors:Header][Inactive"@.len());
    reveal_strlit("Colors:Header");
    assert("Colors:Header"@.len() != "Colors:Header][Inactive"@.len());
    lemma_effects_quiet(c, "Colors:Header][Inactive"@);
    let pre0 = effects_text(c);
    lemma_surface_lines(c.surface_container_high, c.surface_container, c);
    let g0 = color_group("Colors:Button"@, surface_group(c.surface_container_high, c.surface_container, c));
    lemma_group_quiet("Colors:Button"@, surface_group(c.surface_container_high, c.surface_container, c), "Colors:Header][Inactive"@);
    lemma_quiet_append(pre0, g0, "Colors:Header][Inactive"@);
    lemma_ends_after(pre0, g0);
    let pre1 = pre0 + g0;
    lemma_surface_lines(c.surface_container_high, c.surface, c);
    let g1 = color_group("Colors:Complementary"@, surface_group(c.surface_container_high, c.surface, c));
    lemma_group_quiet("Colors:Complementary"@, surface_group(c.surface_container_high, c.surface, c), "Colors:Header][Inactive"@);
    lemma_quiet_append(pre1, g1, "Colors:Header][Inactive"@);
    lemma_ends_after(pre1, g1);
    let pre2 = pre1 + g1;
    lemma_surface_lines(c.surface_container, c.surface, c);
    let g2 = color_group("Colors:Header"@, surface_group(c.surface_container, c.surface, c));
    lemma_group_quiet("Colors:Header"@, surface_group(c.surface_container, c.surface, c), "Colors:Header][Inactive"@);
    lemma_quiet_append(pre2, g2, "Colors:Header][Inactive"@);
    lemma_ends_after(pre2, g2);
    let pre3 = pre2 + g2;
    lemma_surface_lines(c.surface_container, c.surface, c);
    let gg = color_group("Colors:Header][Inactive"@, surface_group(c.surface_container, c.surface, c));
    let post = color_group("Colors:Selection"@, selection_group(c)) + color_group("Colors:Tooltip"@, surface_group(c.surface_container_highest, c.surface_container_high, c)) + color_group("Colors:View"@, surface_group(c.surface_container_low, c.surface, c)) + color_group("Colors:Window"@, surface_group(c.surface_container, c.surface_container_low, c)) + closing_text(c, name);
    assert(scheme_text(c, name) =~= pre3 + gg + post);
    assert forall|q: int| 0 <= q < 12 implies read_ini_value_of(scheme_text(c, name), "Colors:Header][Inactive"@, #[trigger] group_keys()[q]) == Some(surface_group(c.surface_container, c.surface, c)[q]) by {
        lemma_group_reads_exact(pre3, "Colors:Header][Inactive"@, surface_group(c.surface_container, c.surface, c), post, q);
    }
}

/// Each key of the `Colors:Selection` group of a generated scheme reads back as the
/// color written for it.
#[verifier::spinoff_prover]
#[verifier::rlimit(60)]
proof fn lemma_values_selection(c: RgbTexts, name: Seq<char>)
    requires
        rgb_lines_ok(c),
    ensures
        forall|q: int| 0 <= q < 12 ==> read_ini_value_of(scheme_text(c, name), "Colors:Selection"@, #[trigger] group_keys()[q])
            == Some(selection_group(c)[q]),
{
    reveal_strlit("Colors:Selection");
    reveal_strlit("Colors:Button");
    assert("Colors:Button"@.len() != "Colors:Selection"@.len());
    reveal_strlit("Colors:Complementary");
    assert("Colors:Complementary"@.len() != "Colors:Selection"@.len());
    reveal_strlit("Colors:Header");
    assert("Colors:Header"@.len() != "Colors:Selection"@.len());
    reveal_strlit("Colors:Header][Inactive");
    assert("Colors:Header][Inactive"@.len() != "Colors:Selection"@.len());
    lemma_effects_quiet(c, "Colors:Selection"@);
    let pre0 = effects_text(c);
    lemma_surface_lines(c.surface_container_high, c.surface_container, c);
    let g0 = color_group("Colors:Button"@, surface_group(c.surface_container_high, c.surface_container, c));
    lemma_group_quiet("Colors:Button"@, surface_group(c.surface_container_high, c.surface_container, c), "Colors:Selection"@);
    lemma_quiet_append(pre0, g0, "Colors:Selection"@);
    lemma_ends_after(pre0, g0);
    let pre1 = pre0 + g0;
    lemma_surface_lines(c.surface_container_high, c.surface, c);
    let g1 = color_group("Colors:Complementary"@, surface_group(c.surface_container_high, c.surface, c));
    lemma_group_quiet("Colors:Complementary"@, surface_group(c.surface_container_high, c.surface, c), "Colors:Selection"@);
    lemma_quiet_append(pre1, g1, "Colors:Selection"@);
    lemma_ends_after(pre1, g1);
    let pre2 = pre1 + g1;
    lemma_surface_lines(c.surface_container, c.surface, c);
    let g2 = color_group("Colors:Header"@, surface_group(c.surface_container, c.surface, c));
    lemma_group_quiet("Colors:Header"@, surface_group(c.surface_container, c.surface, c), "Colors:Selection"@);
    lemma_quiet_append(pre2, g2, "Colors:Selection"@);
    lemma_ends_after(pre2, g2);
    let pre3 = pre2 + g2;
    lemma_surface_lines(c.surface_container, c.surface, c);
    let g3 = color_group("Colors:Header][Inactive"@, surface_group(c.surface_container, c.surface, c));
    lemma_group_quiet("Colors:Header][Inactive"@, surface_group(c.surface_container, c.surface, c), "Colors:Selection"@);
    lemma_quiet_append(pre3, g3, "Colors:Selection"@);
    lemma_ends_after(pre3, g3);
    let pre4 = pre3 + g3;
    lemma_selection_lines(c);
    let gg = color_group("Colors:Selection"@, selection_group(c));
    let post = color_group("Colors:Tooltip"@, surface_group(c.surface_container_highest, c.surface_container_high, c)) + color_group("Colors:View"@, surface_group(c.surface_container_low, c.surface, c)) + color_group("Colors:Window"@, surface_group(c.surface_container, c.surface_container_low, c)) + closing_text(c, name);
    assert(scheme_text(c, name) =~= pre4 + gg + post);
    assert forall|q: int| 0 <= q < 12 implies read_ini_value_of(scheme_text(c, name), "Colors:Selection"@, #[trigger] group_keys()[q]) == Some(selection_group(c)[q]) by {
        lemma_group_reads_exact(pre4, "Colors:Selection"@, selection_group(c), post, q);
    }
}

/// Each key of the `Colors:Tooltip` group of a generated scheme reads back as the
/// color written for it.
#[verifier::spinoff_prover]
#[verifier::rlimit(60)]
proof fn lemma_values_tooltip(c: RgbTexts, name: Seq<char>)
    requires
        rgb_lines_ok(c),
    ensures
        forall|q: int| 0 <= q < 12 ==> read_ini_value_of(scheme_text(c, name), "Colors:Tooltip"@, #[trigger] group_keys()[q])
            == Some(surface_group(c.surface_container_highest, c.surface_container_high, c)[q]),
{
    reveal_strlit("Colors:Tooltip");
    reveal_strlit("Colors:Button");
    assert("Colors:Button"@.len() != "Colors:Tooltip"@.len());
    reveal_strlit("Colors:Complementary");
    assert("Colors:Complementary"@.len() != "Colors:Tooltip"@.len());
    reveal_strlit("Colors:Header");
    assert("Colors:Header"@.len() != "Colors:Tooltip"@.len());
    reveal_strlit("Colors:Header][Inactive");
    assert("Colors:Header][Inactive"@.len() != "Colors:Tooltip"@.len());
    reveal_strlit("Colors:Selection");
    assert("Colors:Selection"@.len() != "Colors:Tooltip"@.len());
    lemma_effects_quiet(c, "Colors:Tooltip"@);
    let pre0 = effects_text(c);
    lemma_surface_lines(c.surface_container_high, c.surface_container, c);
    let g0 = color_group("Colors:Button"@, surface_group(c.surface_container_high, c.surface_container, c));
    lemma_group_quiet("Colors:Button"@, surface_group(c.surface_container_high, c.surface_container, c), "Colors:Tooltip"@);
    lemma_quiet_append(pre0, g0, "Colors:Tooltip"@);
    lemma_ends_after(pre0, g0);
    let pre1 = pre0 + g0;
    lemma_surface_lines(c.surface_container_high, c.surface, c);
    let g1 = color_group("Colors:Complementary"@, surface_group(c.surface_container_high, c.surface, c));
    lemma_group_quiet("Colors:Complementary"@, surface_group(c.surface_container_high, c.surface, c), "Colors:Tooltip"@);
    lemma_quiet_append(pre1, g1, "Colors:Tooltip"@);
    lemma_ends_after(pre1, g1);
    let pre2 = pre1 + g1;
    lemma_surface_lines(c.surface_container, c.surface, c);
    let g2 = color_group("Colors:Header"@, surface_group(c.surface_container, c.surface, c));
    lemma_group_quiet("Colors:Header"@, surface_group(c.surface_container, c.surface, c), "Colors:Tooltip"@);
    lemma_quiet_append(pre2, g2, "Colors:Tooltip"@);
    lemma_ends_after(pre2, g2);
    let pre3 = pre2 + g2;
    lemma_surface_lines(c.surface_container, c.surface, c);
    let g3 = color_group("Colors:Header][Inactive"@, surface_group(c.surface_container, c.surface, c));
    lemma_group_quiet("Colors:Header][Inactive"@, surface_group(c.surface_container, c.surface, c), "Colors:Tooltip"@);
    lemma_quiet_append(pre3, g3, "Colors:Tooltip"@);
    lemma_ends_after(pre3, g3);
    let pre4 = pre3 + g3;
    lemma_selection_lines(c);
    let g4 = color_group("Colors:Selection"@, selection_group(c));
    lemma_group_quiet("Colors:Selection"@, selection_group(c), "Colors:Tooltip"@);
    lemma_quiet_append(pre4, g4, "Colors:Tooltip"@);
    lemma_ends_after(pre4, g4);
    let pre5 = pre4 + g4;
    lemma_surface_lines(c.surface_container_highest, c.surface_container_high, c);
    let gg = color_group("Colors:Tooltip"@, surface_group(c.surface_container_highest, c.surface_container_high, c));
    let post = color_group("Colors:View"@, surface_group(c.surface_container_low, c.surface, c)) + color_group("Colors:Window"@, surface_group(c.surface_container, c.surface_container_low, c)) + closing_text(c, name);
    assert(scheme_text(c, name) =~= pre5 + gg + post);
    assert forall|q: int| 0 <= q < 12 implies read_ini_value_of(scheme_text(c, name), "Colors:Tooltip"@, #[trigger] group_keys()[q]) == Some(surface_group(c.surface_container_highest, c.surface_container_high, c)[q]) by {
        lemma_group_reads_exact(pre5, "Colors:Tooltip"@, surface_group(c.surface_container_highest, c.surface_container_high, c), post, q);
    }
}

/// Each key of the `Colors:View` group of a generated scheme reads back as the
/// color written for it.
#[verifier::spinoff_prover]
#[verifier::rlimit(60)]
proof fn lemma_values_view(c: RgbTexts, name: Seq<char>)
    requires
        rgb_lines_ok(c),
    ensures
        forall|q: int| 0 <= q < 12 ==> read_ini_value_of(scheme_text(c, name), "Colors:View"@, #[trigger] group_keys()[q])
            == Some(surface_group(c.surface_container_low, c.surface, c)[q]),
{
    reveal_strlit("Colors:View");
    reveal_strlit("Colors:Button");
    assert("Colors:Button"@.len() != "Colors:View"@.len());
    reveal_strlit("Colors:Complementary");
    assert("Colors:Complementary"@.len() != "Colors:View"@.len());
    reveal_strlit("Colors:Header");
    assert("Colors:Header"@.len() != "Colors:View"@.len());
    reveal_strlit("Colors:Header][Inactive");
    assert("Colors:Header][Inactive"@.len() != "Colors:View"@.len());
    reveal_strlit("Colors:Selection");
    assert("Colors:Selection"@.len() != "Colors:View"@.len());
    reveal_strlit("Colors:Tooltip");
    assert("Colors:Tooltip"@.len() != "Colors:View"@.len());
    lemma_effects_quiet(c, "Colors:View"@);
    let pre0 = effects_text(c);
    lemma_surface_lines(c.surface_container_high, c.surface_container, c);
    let g0 = color_group("Colors:Button"@, surface_group(c.surface_container_high, c.surface_container, c));
    lemma_group_quiet("Colors:Button"@, surface_group(c.surface_container_high, c.surface_container, c), "Colors:View"@);
    lemma_quiet_append(pre0, g0, "Colors:View"@);
    lemma_ends_after(pre0, g0);
    let pre1 = pre0 + g0;
    lemma_surface_lines(c.surface_container_high, c.surface, c);
    let g1 = color_group("Colors:Complementary"@, surface_group(c.surface_container_high, c.surface, c));
    lemma_group_quiet("Colors:Complementary"@, surface_group(c.surface_container_high, c.surface, c), "Colors:View"@);
    lemma_quiet_append(pre1, g1, "Colors:View"@);
    lemma_ends_after(pre1, g1);
    let pre2 = pre1 + g1;
    lemma_surface_lines(c.surface_container, c.surface, c);
    let g2 = color_group("Colors:Header"@, surface_group(c.surface_container, c.surface, c));
    lemma_group_quiet("Colors:Header"@, surface_group(c.surface_container, c.surface, c), "Colors:View"@);
    lemma_quiet_append(pre2, g2, "Colors:View"@);
    lemma_ends_after(pre2, g2);
    let pre3 = pre2 + g2;
    lemma_surface_lines(c.surface_container, c.surface, c);
    let g3 = color_group("Colors:Header][Inactive"@, surface_group(c.surface_container, c.surface, c));
    lemma_group_quiet("Colors:Header][Inactive"@, surface_group(c.surface_container, c.surface, c), "Colors:View"@);
    lemma_quiet_append(pre3, g3, "Colors:View"@);
    lemma_ends_after(pre3, g3);
    let pre4 = pre3 + g3;
    lemma_selection_lines(c);
    let g4 = color_group("Colors:Selection"@, selection_group(c));
    lemma_group_quiet("Colors:Selection"@, selection_group(c), "Colors:View"@);
    lemma_quiet_append(pre4, g4, "Colors:View"@);
    lemma_ends_after(pre4, g4);
    let pre5 = pre4 + g4;
    lemma_surface_lines(c.surface_container_highest, c.surface_container_high, c);
    let g5 = color_group("Colors:Tooltip"@, surface_group(c.surface_container_highest, c.surface_container_high, c));
    lemma_group_quiet("Colors:Tooltip"@, surface_group(c.surface_container_highest, c.surface_container_high, c), "Colors:View"@);
    lemma_quiet_append(pre5, g5, "Colors:View"@);
    lemma_ends_after(pre5, g5);
    let pre6 = pre5 + g5;
    lemma_surface_lines(c.surface_container_low, c.surface, c);
    let gg = color_group("Colors:View"@, surface_group(c.surface_container_low, c.surface, c));
    let post = color_group("Colors:Window"@, surface_group(c.surface_container, c.surface_container_low, c)) + closing_text(c, name);
    assert(scheme_text(c, name) =~= pre6 + gg + post);
    assert forall|q: int| 0 <= q < 12 implies read_ini_value_of(scheme_text(c, name), "Colors:View"@, #[trigger] group_keys()[q]) == Some(surface_group(c.surface_container_low, c.surface, c)[q]) by {
        lemma_group_reads_exact(pre6, "Colors:View"@, surface_group(c.surface_container_low, c.surface, c), post, q);
    }
}

/// Each key of the `Colors:Window` group of a generated scheme reads back as the
/// color written for it.
#[verifier::spinoff_prover]
#[verifier::rlimit(60)]
proof fn lemma_values_window(c: RgbTexts, name: Seq<char>)
    requires
        rgb_lines_ok(c),
    ensures
        forall|q: int| 0 <= q < 12 ==> read_ini_value_of(scheme_text(c, name), "Colors:Window"@, #[trigger] group_keys()[q])
            == Some(surface_group(c.surface_container, c.surface_container_low, c)[q]),
{
    reveal_strlit("Colors:Window");
    reveal_strlit("Colors:Button");
    assert("Colors:Button"@[7] != "Colors:Window"@[7]);
    reveal_strlit("Colors:Complementary");
    assert("Colors:Complementary"@.len() != "Colors:Window"@.len());
    reveal_strlit("Colors:Header");
    assert("Colors:Header"@[7] != "Colors:Window"@[7]);
    reveal_strlit("Colors:Header][Inactive");
    assert("Colors:Header][Inactive"@.len() != "Colors:Window"@.len());
    reveal_strlit("Colors:Selection");
    assert("Colors:Selection"@.len() != "Colors:Window"@.len());
    reveal_strlit("Colors:Tooltip");
    assert("Colors:Tooltip"@.len() != "Colors:Window"@.len());
    reveal_strlit("Colors:View");
    assert("Colors:View"@.len() != "Colors:Window"@.len());
    lemma_effects_quiet(c, "Colors:Window"@);
    let pre0 = effects_text(c);
    lemma_surface_lines(c.surface_container_high, c.surface_container, c);
    let g0 = color_group("Colors:Button"@, surface_group(c.surface_container_high, c.surface_container, c));
    lemma_group_quiet("Colors:Button"@, surface_group(c.surface_container_high, c.surface_container, c), "Colors:Window"@);
    lemma_quiet_append(pre0, g0, "Colors:Window"@);
    lemma_ends_after(pre0, g0);
    let pre1 = pre0 + g0;
    lemma_surface_lines(c.surface_container_high, c.surface, c);
    let g1 = color_group("Colors:Complementary"@, surface_group(c.surface_container_high, c.surface, c));
    lemma_group_quiet("Colors:Complementary"@, surface_group(c.surface_container_high, c.surface, c), "Colors:Window"@);
    lemma_quiet_append(pre1, g1, "Colors:Window"@);
    lemma_ends_after(pre1, g1);
    let pre2 = pre1 + g1;
    lemma_surface_lines(c.surface_container, c.surface, c);
    let g2 = color_group("Colors:Header"@, surface_group(c.surface_container, c.surface, c));
    lemma_group_quiet("Colors:Header"@, surface_group(c.surface_container, c.surface, c), "Colors:Window"@);
    lemma_quiet_append(pre2, g2, "Colors:Window"@);
    lemma_ends_after(pre2, g2);
    let pre3 = pre2 + g2;
    lemma_surface_lines(c.surface_container, c.surface, c);
    let g3 = color_group("Colors:Header][Inactive"@, surface_group(c.surface_container, c.surface, c));
    lemma_group_quiet("Colors:Header][Inactive"@, surface_group(c.surface_container, c.surface, c), "Colors:Window"@);
    lemma_quiet_append(pre3, g3, "Colors:Window"@);
    lemma_ends_after(pre3, g3);
    let pre4 = pre3 + g3;
    lemma_selection_lines(c);
    let g4 = color_group("Colors:Selection"@, selection_group(c));
    lemma_group_quiet("Colors:Selection"@, selection_group(c), "Colors:Window"@);
    lemma_quiet_append(pre4, g4, "Colors:Window"@);
    lemma_ends_after(pre4, g4);
    let pre5 = pre4 + g4;
    lemma_surface_lines(c.surface_container_highest, c.surface_container_high, c);
    let g5 = color_group("Colors:Tooltip"@, surface_group(c.surface_container_highest, c.surface_container_high, c));
    lemma_group_quiet("Colors:Tooltip"@, surface_group(c.surface_container_highest, c.surface_container_high, c), "Colors:Window"@);
    lemma_quiet_append(pre5, g5, "Colors:Window"@);
    lemma_ends_after(pre5, g5);
    let pre6 = pre5 + g5;
    lemma_surface_lines(c.surface_container_low, c.surface, c);
    let g6 = color_group("Colors:View"@, surface_group(c.surface_container_low, c.surface, c));
    lemma_group_quiet("Colors:View"@, surface_group(c.surface_container_low, c.surface, c), "Colors:Window"@);
    lemma_quiet_append(pre6, g6, "Colors:Window"@);
    lemma_ends_after(pre6, g6);
    let pre7 = pre6 + g6;
    lemma_surface_lines(c.surface_container, c.surface_container_low, c);
    let gg = color_group("Colors:Window"@, surface_group(c.surface_container, c.surface_container_low, c));
    let post = closing_text(c, name);
    assert(scheme_text(c, name) =~= pre7 + gg + post);
    assert forall|q: int| 0 <= q < 12 implies read_ini_value_of(scheme_text(c, name), "Colors:Window"@, #[trigger] group_keys()[q]) == Some(surface_group(c.surface_container, c.surface_container_low, c)[q]) by {
        lemma_group_reads_exact(pre7, "Colors:Window"@, surface_group(c.surface_container, c.surface_container_low, c), post, q);
    }
}

/// In every scheme that `generate_kde_colorscheme` writes, each key of each
/// `[Colors:*]` group reads back as the KDE `r,g,b` text of the palette role
/// the scheme gives it: backgrounds from the surface containers, accents
/// from the primary, and in the selection group the primary as background
/// with text in `on_primary` and the link, negative, neutral, positive and
/// visited colors as their own roles.
#[verifier::rlimit(100)]
pub proof fn lemma_generated_scheme_values(ctx: SchemeContext, name: Seq<char>)
    ensures
        ({
            let c = rgb_texts_of(ctx);
            let t = scheme_text(c, name);
            &&& read_ini_value_of(t, "Colors:Button"@, "BackgroundAlternate"@) == Some(c.surface_container_high)
            &&& read_ini_value_of(t, "Colors:Button"@, "BackgroundNormal"@) == Some(c.surface_container)
            &&& read_ini_value_of(t, "Colors:Button"@, "DecorationFocus"@) == Some(c.primary)
            &&& read_ini_value_of(t, "Colors:Button"@, "DecorationHover"@) == Some(c.primary)
            &&& read_ini_value_of(t, "Colors:Button"@, "ForegroundActive"@) == Some(c.primary)
            &&& read_ini_value_of(t, "Colors:Button"@, "ForegroundInactive"@) == Some(c.on_surface_variant)
            &&& read_ini_value_of(t, "Colors:Button"@, "ForegroundLink"@) == Some(c.primary)
            &&& read_ini_value_of(t, "Colors:Button"@, "ForegroundNegative"@) == Some(c.error)
            &&& read_ini_value_of(t, "Colors:Button"@, "ForegroundNeutral"@) == Some(c.tertiary)
            &&& read_ini_value_of(t, "Colors:Button"@, "ForegroundNormal"@) == Some(c.on_surface)
            &&& read_ini_value_of(t, "Colors:Button"@, "ForegroundPositive"@) == Some(c.primary)
            &&& read_ini_value_of(t, "Colors:Button"@, "ForegroundVisited"@) == Some(c.secondary)
            &&& read_ini_value_of(t, "Colors:Complementary"@, "BackgroundAlternate"@) == Some(c.surface_container_high)
            &&& read_ini_value_of(t, "Colors:Complementary"@, "BackgroundNormal"@) == Some(c.surface)
            &&& read_ini_value_of(t, "Colors:Complementary"@, "DecorationFocus"@) == Some(c.primary)
            &&& read_ini_value_of(t, "Colors:Complementary"@, "DecorationHover"@) == Some(c.primary)
            &&& read_ini_value_of(t, "Colors:Complementary"@, "ForegroundActive"@) == Some(c.primary)
            &&& read_ini_value_of(t, "Colors:Complementary"@, "ForegroundInactive"@) == Some(c.on_surface_variant)
            &&& read_ini_value_of(t, "Colors:Complementary"@, "ForegroundLink"@) == Some(c.primary)
            &&& read_ini_value_of(t, "Colors:Complementary"@, "ForegroundNegative"@) == Some(c.error)
            &&& read_ini_value_of(t, "Colors:Complementary"@, "ForegroundNeutral"@) == Some(c.tertiary)
            &&& read_ini_value_of(t, "Colors:Complementary"@, "ForegroundNormal"@) == Some(c.on_surface)
            &&& read_ini_value_of(t, "Colors:Complementary"@, "ForegroundPositive"@) == Some(c.primary)
            &&& read_ini_value_of(t, "Colors:Complementary"@, "ForegroundVisited"@) == Some(c.secondary)
            &&& read_ini_value_of(t, "Colors:Header"@, "BackgroundAlternate"@) == Some(c.surface_container)
            &&& read_ini_value_of(t, "Colors:Header"@, "BackgroundNormal"@) == Some(c.surface)
            &&& read_ini_value_of(t, "Colors:Header"@, "DecorationFocus"@) == Some(c.primary)
            &&& read_ini_value_of(t, "Colors:Header"@, "DecorationHover"@) == Some(c.primary)
            &&& read_ini_value_of(t, "Colors:Header"@, "ForegroundActive"@) == Some(c.primary)
            &&& read_ini_value_of(t, "Colors:Header"@, "ForegroundInactive"@) == Some(c.on_surface_variant)
            &&& read_ini_value_of(t, "Colors:Header"@, "ForegroundLink"@) == Some(c.primary)
            &&& read_ini_value_of(t, "Colors:Header"@, "ForegroundNegative"@) == Some(c.error)
            &&& read_ini_value_of(t, "Colors:Header"@, "ForegroundNeutral"@) == Some(c.tertiary)
            &&& read_ini_value_of(t, "Colors:Header"@, "ForegroundNormal"@) == Some(c.on_surface)
            &&& read_ini_value_of(t, "Colors:Header"@, "ForegroundPositive"@) == Some(c.primary)
            &&& read_ini_value_of(t, "Colors:Header"@, "ForegroundVisited"@) == Some(c.secondary)
            &&& read_ini_value_of(t, "Colors:Header][Inactive"@, "BackgroundAlternate"@) == Some(c.surface_container)
            &&& read_ini_value_of(t, "Colors:Header][Inactive"@, "BackgroundNormal"@) == Some(c.surface)
            &&& read_ini_value_of(t, "Colors:Header][Inactive"@, "DecorationFocus"@) == Some(c.primary)
            &&& read_ini_value_of(t, "Colors:Header][Inactive"@, "DecorationHover"@) == Some(c.primary)
            &&& read_ini_value_of(t, "Colors:Header][Inactive"@, "ForegroundActive"@) == Some(c.primary)
            &&& read_ini_value_of(t, "Colors:Header][Inactive"@, "ForegroundInactive"@) == Some(c.on_surface_variant)
            &&& read_ini_value_of(t, "Colors:Header][Inactive"@, "ForegroundLink"@) == Some(c.primary)
            &&& read_ini_value_of(t, "Colors:Header][Inactive"@, "ForegroundNegative"@) == Some(c.error)
            &&& read_ini_value_of(t, "Colors:Header][Inactive"@, "ForegroundNeutral"@) == Some(c.tertiary)
            &&& read_ini_value_of(t, "Colors:Header][Inactive"@, "ForegroundNormal"@) == Some(c.on_surface)
            &&& read_ini_value_of(t, "Colors:Header][Inactive"@, "ForegroundPositive"@) == Some(c.primary)
            &&& read_ini_value_of(t, "Colors:Header][Inactive"@, "ForegroundVisited"@) == Some(c.secondary)
            &&& read_ini_value_of(t, "Colors:Selection"@, "BackgroundAlternate"@) == Some(c.primary)
            &&& read_ini_value_of(t, "Colors:Selection"@, "BackgroundNormal"@) == Some(c.primary)
            &&& read_ini_value_of(t, "Colors:Selection"@, "DecorationFocus"@) == Some(c.primary)
            &&& read_ini_value_of(t, "Colors:Selection"@, "DecorationHover"@) == Some(c.primary)
            &&& read_ini_value_of(t, "Colors:Selection"@, "ForegroundActive"@) == Some(c.on_primary)
            &&& read_ini_value_of(t, "Colors:Selection"@, "ForegroundInactive"@) == Some(c.on_primary)
            &&& read_ini_value_of(t, "Colors:Selection"@, "ForegroundLink"@) == Some(c.link)
            &&& read_ini_value_of(t, "Colors:Selection"@, "ForegroundNegative"@) == Some(c.negative)
            &&& read_ini_value_of(t, "Colors:Selection"@, "ForegroundNeutral"@) == Some(c.neutral)
            &&& read_ini_value_of(t, "Colors:Selection"@, "ForegroundNormal"@) == Some(c.on_primary)
            &&& read_ini_value_of(t, "Colors:Selection"@, "ForegroundPositive"@) == Some(c.positive)
            &&& read_ini_value_of(t, "Colors:Selection"@, "ForegroundVisited"@) == Some(c.visited)
            &&& read_ini_value_of(t, "Colors:Tooltip"@, "BackgroundAlternate"@) == Some(c.surface_container_highest)
            &&& read_ini_value_of(t, "Colors:Tooltip"@, "BackgroundNormal"@) == Some(c.surface_container_high)
            &&& read_ini_value_of(t, "Colors:Tooltip"@, "DecorationFocus"@) == Some(c.primary)
            &&& read_ini_value_of(t, "Colors:Tooltip"@, "DecorationHover"@) == Some(c.primary)
            &&& read_ini_value_of(t, "Colors:Tooltip"@, "ForegroundActive"@) == Some(c.primary)
            &&& read_ini_value_of(t, "Colors:Tooltip"@, "ForegroundInactive"@) == Some(c.on_surface_variant)
            &&& read_ini_value_of(t, "Colors:Tooltip"@, "ForegroundLink"@) == Some(c.primary)
            &&& read_ini_value_of(t, "Colors:Tooltip"@, "ForegroundNegative"@) == Some(c.error)
            &&& read_ini_value_of(t, "Colors:Tooltip"@, "ForegroundNeutral"@) == Some(c.tertiary)
            &&& read_ini_value_of(t, "Colors:Tooltip"@, "ForegroundNormal"@) == Some(c.on_surface)
            &&& read_ini_value_of(t, "Colors:Tooltip"@, "ForegroundPositive"@) == Some(c.primary)
            &&& read_ini_value_of(t, "Colors:Tooltip"@, "ForegroundVisited"@) == Some(c.secondary)
            &&& read_ini_value_of(t, "Colors:View"@, "BackgroundAlternate"@) == Some(c.surface_container_low)
            &&& read_ini_value_of(t, "Colors:View"@, "BackgroundNormal"@) == Some(c.surface)
            &&& read_ini_value_of(t, "Colors:View"@, "DecorationFocus"@) == Some(c.primary)
            &&& read_ini_value_of(t, "Colors:View"@, "DecorationHover"@) == Some(c.primary)
            &&& read_ini_value_of(t, "Colors:View"@, "ForegroundActive"@) == Some(c.primary)
            &&& read_ini_value_of(t, "Colors:View"@, "ForegroundInactive"@) == Some(c.on_surface_variant)
            &&& read_ini_value_of(t, "Colors:View"@, "ForegroundLink"@) == Some(c.primary)
            &&& read_ini_value_of(t, "Colors:View"@, "ForegroundNegative"@) == Some(c.error)
            &&& read_ini_value_of(t, "Colors:View"@, "ForegroundNeutral"@) == Some(c.tertiary)
            &&& read_ini_value_of(t, "Colors:View"@, "ForegroundNormal"@) == Some(c.on_surface)
            &&& read_ini_value_of(t, "Colors:View"@, "ForegroundPositive"@) == Some(c.primary)
            &&& read_ini_value_of(t, "Colors:View"@, "ForegroundVisited"@) == Some(c.secondary)
            &&& read_ini_value_of(t, "Colors:Window"@, "BackgroundAlternate"@) == Some(c.surface_container)
            &&& read_ini_value_of(t, "Colors:Window"@, "BackgroundNormal"@) == Some(c.surface_container_low)
            &&& read_ini_value_of(t, "Colors:Window"@, "DecorationFocus"@) == Some(c.primary)
            &&& read_ini_value_of(t, "Colors:Window"@, "DecorationHover"@) == Some(c.primary)
            &&& read_ini_value_of(t, "Colors:Window"@, "ForegroundActive"@) == Some(c.primary)
            &&& read_ini_value_of(t, "Colors:Window"@, "ForegroundInactive"@) == Some(c.on_surface_variant)
            &&& read_ini_value_of(t, "Colors:Window"@, "ForegroundLink"@) == Some(c.primary)
            &&& read_ini_value_of(t, "Colors:Window"@, "ForegroundNegative"@) == Some(c.error)
            &&& read_ini_value_of(t, "Colors:Window"@, "ForegroundNeutral"@) == Some(c.tertiary)
            &&& read_ini_value_of(t, "Colors:Window"@, "ForegroundNormal"@) == Some(c.on_surface)
            &&& read_ini_value_of(t, "Colors:Window"@, "ForegroundPositive"@) == Some(c.primary)
            &&& read_ini_value_of(t, "Colors:Window"@, "ForegroundVisited"@) == Some(c.secondary)
        }),
{
    lemma_generated_colors_on_lines(ctx);
    let c = rgb_texts_of(ctx);
    lemma_values_button(c, name);
    lemma_values_complementary(c, name);
    lemma_values_header(c, name);
    lemma_values_header_inactive(c, name);
    lemma_values_selection(c, name);
    lemma_values_tooltip(c, name);
    lemma_values_view(c, name);
    lemma_values_window(c, name);
    assert(group_keys()[0] == "BackgroundAlternate"@);
    assert(group_keys()[1] == "BackgroundNormal"@);
    assert(group_keys()[2] == "DecorationFocus"@);
    assert(group_keys()[3] == "DecorationHover"@);
    assert(group_keys()[4] == "ForegroundActive"@);
    assert(group_keys()[5] == "ForegroundInactive"@);
    assert(group_keys()[6] == "ForegroundLink"@);
    assert(group_keys()[7] == "ForegroundNegative"@);
    assert(group_keys()[8] == "ForegroundNeutral"@);
    assert(group_keys()[9] == "ForegroundNormal"@);
    assert(group_keys()[10] == "ForegroundPositive"@);
    assert(group_keys()[11] == "ForegroundVisited"@);
}

/// A header line is its own trim, a group line, and one line.
proof fn lemma_header_facts(t: Seq<char>)
    requires
        text::free_of(t, '\n'),
    ensures
        trim(group_header(t)) == group_header(t),
        is_group_line(group_header(t)),
        text::free_of(group_header(t), '\n'),
        group_header(t).last() == ']',
{
    let h = group_header(t);
    assert(h[0] == '[');
    assert(h.last() == ']');
    text::lemma_trim_plain(h);
    assert forall|j: int| 0 <= j < h.len() implies #[trigger] h[j] != '\n' by {
        if 0 < j < h.len() - 1 {
            assert(h[j] == t[j - 1]);
        }
    }
}

proof fn lemma_lines_cons(x: Seq<char>, r: Seq<char>)
    requires
        text::free_of(x, '\n'),
        !(x.len() > 0 && x.last() == '\r'),
    ensures
        lines(x.push('\n') + r) == seq![x] + lines(r),
{
    text::lemma_lines_one(x);
    text::lemma_lines_append(x.push('\n'), r);
}

/// The lines of the effects groups.
spec fn effects_lines(c: RgbTexts) -> Seq<Seq<char>> {
    seq![group_header("ColorEffects:Disabled"@), kv_line("Color"@, c.on_surface_variant), kv_line("ColorAmount"@, "0.55"@), kv_line("ColorEffect"@, "3"@), kv_line("ContrastAmount"@, "0.65"@), kv_line("ContrastEffect"@, "1"@), kv_line("IntensityAmount"@, "0.1"@), kv_line("IntensityEffect"@, "2"@), Seq::<char>::empty(), group_header("ColorEffects:Inactive"@), kv_line("ChangeSelectionColor"@, "true"@), kv_line("Color"@, c.surface), kv_line("ColorAmount"@, "0.025"@), kv_line("ColorEffect"@, "2"@), kv_line("ContrastAmount"@, "0.1"@), kv_line("ContrastEffect"@, "2"@), kv_line("Enable"@, "false"@), kv_line("IntensityAmount"@, "0"@), kv_line("IntensityEffect"@, "0"@), Seq::<char>::empty()]
}

/// The lines of the closing groups.
spec fn closing_lines(c: RgbTexts, name: Seq<char>) -> Seq<Seq<char>> {
    seq![group_header("General"@), kv_line("ColorScheme"@, name), kv_line("Name"@, name), kv_line("shadeSortColumn"@, "true"@), Seq::<char>::empty(), group_header("KDE"@), kv_line("contrast"@, "4"@), Seq::<char>::empty(), group_header("WM"@), kv_line("activeBackground"@, c.surface_container), kv_line("activeBlend"@, c.primary), kv_line("activeForeground"@, c.on_surface), kv_line("inactiveBackground"@, c.surface_container_low), kv_line("inactiveBlend"@, c.surface_dim), kv_line("inactiveForeground"@, c.on_surface_variant), kv_line("frame"@, c.surface_container_low)]
}

#[verifier::spinoff_prover]
#[verifier::rlimit(100)]
proof fn lemma_effects_lines(c: RgbTexts)
    requires
        line_value(c.on_surface_variant),
        line_value(c.surface),
    ensures
        lines(effects_text(c)) == effects_lines(c),
{
    reveal_strlit("[ColorEffects:Disabled]\nColor=");
    reveal_strlit("\nColorAmount=0.55\nColorEffect=3\nContrastAmount=0.65\nContrastEffect=1\nIntensityAmount=0.1\nIntensityEffect=2\n\n[ColorEffects:Inactive]\nChangeSelectionColor=true\nColor=");
    reveal_strlit("\nColorAmount=0.025\nColorEffect=2\nContrastAmount=0.1\nContrastEffect=2\nEnable=false\nIntensityAmount=0\nIntensityEffect=0\n\n");
    reveal_strlit("0");
    reveal_strlit("0.025");
    reveal_strlit("0.1");
    reveal_strlit("0.55");
    reveal_strlit("0.65");
    reveal_strlit("1");
    reveal_strlit("2");
    reveal_strlit("3");
    reveal_strlit("ChangeSelectionColor");
    reveal_strlit("Color");
    reveal_strlit("ColorAmount");
    reveal_strlit("ColorEffect");
    reveal_strlit("ColorEffects:Disabled");
    reveal_strlit("ColorEffects:Inactive");
    reveal_strlit("ContrastAmount");
    reveal_strlit("ContrastEffect");
    reveal_strlit("Enable");
    reveal_strlit("IntensityAmount");
    reveal_strlit("IntensityEffect");
    reveal_strlit("false");
    reveal_strlit("true");
    lemma_header_facts("ColorEffects:Disabled"@);
    lemma_kv_facts("Color"@, c.on_surface_variant);
    assert(kv_line("Color"@, c.on_surface_variant).last() == (if c.on_surface_variant.len() > 0 { c.on_surface_variant.last() } else { '=' }));
    lemma_kv_facts("ColorAmount"@, "0.55"@);
    assert(kv_line("ColorAmount"@, "0.55"@).last() == (if "0.55"@.len() > 0 { "0.55"@.last() } else { '=' }));
    lemma_kv_facts("ColorEffect"@, "3"@);
    assert(kv_line("ColorEffect"@, "3"@).last() == (if "3"@.len() > 0 { "3"@.last() } else { '=' }));
    lemma_kv_facts("ContrastAmount"@, "0.65"@);
    assert(kv_line("ContrastAmount"@, "0.65"@).last() == (if "0.65"@.len() > 0 { "0.65"@.last() } else { '=' }));
    lemma_kv_facts("ContrastEffect"@, "1"@);
    assert(kv_line("ContrastEffect"@, "1"@).last() == (if "1"@.len() > 0 { "1"@.last() } else { '=' }));
    lemma_kv_facts("IntensityAmount"@, "0.1"@);
    assert(kv_line("IntensityAmount"@, "0.1"@).last() == (if "0.1"@.len() > 0 { "0.1"@.last() } else { '=' }));
    lemma_kv_facts("IntensityEffect"@, "2"@);
    assert(kv_line("IntensityEffect"@, "2"@).last() == (if "2"@.len() > 0 { "2"@.last() } else { '=' }));
    lemma_header_facts("ColorEffects:Inactive"@);
    lemma_kv_facts("ChangeSelectionColor"@, "true"@);
    assert(kv_line("ChangeSelectionColor"@, "true"@).last() == (if "true"@.len() > 0 { "true"@.last() } else { '=' }));
    lemma_kv_facts("Color"@, c.surface);
    assert(kv_line("Color"@, c.surface).last() == (if c.surface.len() > 0 { c.surface.last() } else { '=' }));
    lemma_kv_facts("ColorAmount"@, "0.025"@);
    assert(kv_line("ColorAmount"@, "0.025"@).last() == (if "0.025"@.len() > 0 { "0.025"@.last() } else { '=' }));
    lemma_kv_facts("ColorEffect"@, "2"@);
    assert(kv_line("ColorEffect"@, "2"@).last() == (if "2"@.len() > 0 { "2"@.last() } else { '=' }));
    lemma_kv_facts("ContrastAmount"@, "0.1"@);
    assert(kv_line("ContrastAmount"@, "0.1"@).last() == (if "0.1"@.len() > 0 { "0.1"@.last() } else { '=' }));
    lemma_kv_facts("ContrastEffect"@, "2"@);
    assert(kv_line("ContrastEffect"@, "2"@).last() == (if "2"@.len() > 0 { "2"@.last() } else { '=' }));
    lemma_kv_facts("Enable"@, "false"@);
    assert(kv_line("Enable"@, "false"@).last() == (if "false"@.len() > 0 { "false"@.last() } else { '=' }));
    lemma_kv_facts("IntensityAmount"@, "0"@);
    assert(kv_line("IntensityAmount"@, "0"@).last() == (if "0"@.len() > 0 { "0"@.last() } else { '=' }));
    lemma_kv_facts("IntensityEffect"@, "0"@);
    assert(kv_line("IntensityEffect"@, "0"@).last() == (if "0"@.len() > 0 { "0"@.last() } else { '=' }));
    let xs = seq![group_header("ColorEffects:Disabled"@), kv_line("Color"@, c.on_surface_variant), kv_line("ColorAmount"@, "0.55"@), kv_line("ColorEffect"@, "3"@), kv_line("ContrastAmount"@, "0.65"@), kv_line("ContrastEffect"@, "1"@), kv_line("IntensityAmount"@, "0.1"@), kv_line("IntensityEffect"@, "2"@), Seq::<char>::empty(), group_header("ColorEffects:Inactive"@), kv_line("ChangeSelectionColor"@, "true"@), kv_line("Color"@, c.surface), kv_line("ColorAmount"@, "0.025"@), kv_line("ColorEffect"@, "2"@), kv_line("ContrastAmount"@, "0.1"@), kv_line("ContrastEffect"@, "2"@), kv_line("Enable"@, "false"@), kv_line("IntensityAmount"@, "0"@), kv_line("IntensityEffect"@, "0"@), Seq::<char>::empty()];
    let r19 = xs[19].push('\n');
    text::lemma_lines_one(xs[19]);
    assert(lines(r19) =~= xs.subrange(19, 20));
    let r18 = xs[18].push('\n') + r19;
    lemma_lines_cons(xs[18], r19);
    assert(lines(r18) =~= xs.subrange(18, 20));
    let r17 = xs[17].push('\n') + r18;
    lemma_lines_cons(xs[17], r18);
    assert(lines(r17) =~= xs.subrange(17, 20));
    let r16 = xs[16].push('\n') + r17;
    lemma_lines_cons(xs[16], r17);
    assert(lines(r16) =~= xs.subrange(16, 20));
    let r15 = xs[15].push('\n') + r16;
    lemma_lines_cons(xs[15], r16);
    assert(lines(r15) =~= xs.subrange(15, 20));
    let r14 = xs[14].push('\n') + r15;
    lemma_lines_cons(xs[14], r15);
    assert(lines(r14) =~= xs.subrange(14, 20));
    let r13 = xs[13].push('\n') + r14;
    lemma_lines_cons(xs[13], r14);
    assert(lines(r13) =~= xs.subrange(13, 20));
    let r12 = xs[12].push('\n') + r13;
    lemma_lines_cons(xs[12], r13);
    assert(lines(r12) =~= xs.subrange(12, 20));
    let r11 = xs[11].push('\n') + r12;
    lemma_lines_cons(xs[11], r12);
    assert(lines(r11) =~= xs.subrange(11, 20));
    let r10 = xs[10].push('\n') + r11;
    lemma_lines_cons(xs[10], r11);
    assert(lines(r10) =~= xs.subrange(10, 20));
    let r9 = xs[9].push('\n') + r10;
    lemma_lines_cons(xs[9], r10);
    assert(lines(r9) =~= xs.subrange(9, 20));
    let r8 = xs[8].push('\n') + r9;
    lemma_lines_cons(xs[8], r9);
    assert(lines(r8) =~= xs.subrange(8, 20));
    let r7 = xs[7].push('\n') + r8;
    lemma_lines_cons(xs[7], r8);
    assert(lines(r7) =~= xs.subrange(7, 20));
    let r6 = xs[6].push('\n') + r7;
    lemma_lines_cons(xs[6], r7);
    assert(lines(r6) =~= xs.subrange(6, 20));
    let r5 = xs[5].push('\n') + r6;
    lemma_lines_cons(xs[5], r6);
    assert(lines(r5) =~= xs.subrange(5, 20));
    let r4 = xs[4].push('\n') + r5;
    lemma_lines_cons(xs[4], r5);
    assert(lines(r4) =~= xs.subrange(4, 20));
    let r3 = xs[3].push('\n') + r4;
    lemma_lines_cons(xs[3], r4);
    assert(lines(r3) =~= xs.subrange(3, 20));
    let r2 = xs[2].push('\n') + r3;
    lemma_lines_cons(xs[2], r3);
    assert(lines(r2) =~= xs.subrange(2, 20));
    let r1 = xs[1].push('\n') + r2;
    lemma_lines_cons(xs[1], r2);
    assert(lines(r1) =~= xs.subrange(1, 20));
    let r0 = xs[0].push('\n') + r1;
    lemma_lines_cons(xs[0], r1);
    assert(lines(r0) =~= xs.subrange(0, 20));
    assert(effects_text(c) =~= r0);
    assert(xs.subrange(0, 20) =~= xs);
}

spec fn closing_head(name: Seq<char>) -> Seq<char> {
    "[General]\nColorScheme="@ + name + "\nName="@ + name + "\nshadeSortColumn=true\n\n[KDE]\ncontrast=4\n\n"@
}

spec fn closing_wm(c: RgbTexts) -> Seq<char> {
    "[WM]\nactiveBackground="@ + c.surface_container + "\nactiveBlend="@ + c.primary + "\nactiveForeground="@
        + c.on_surface + "\ninactiveBackground="@ + c.surface_container_low + "\ninactiveBlend="@ + c.surface_dim
        + "\ninactiveForeground="@ + c.on_surface_variant + "\nframe="@ + c.surface_container_low + "\n"@
}

proof fn lemma_closing_split(c: RgbTexts, name: Seq<char>)
    ensures
        closing_text(c, name) == closing_head(name) + closing_wm(c),
        closing_head(name).len() > 0,
        closing_head(name).last() == '\n',
{
    reveal_strlit("\nshadeSortColumn=true\n\n[KDE]\ncontrast=4\n\n[WM]\nactiveBackground=");
    reveal_strlit("\nshadeSortColumn=true\n\n[KDE]\ncontrast=4\n\n");
    reveal_strlit("[WM]\nactiveBackground=");
    assert("\nshadeSortColumn=true\n\n[KDE]\ncontrast=4\n\n[WM]\nactiveBackground="@ =~= "\nshadeSortColumn=true\n\n[KDE]\ncontrast=4\n\n"@ + "[WM]\nactiveBackground="@);
    assert(closing_text(c, name) =~= closing_head(name) + closing_wm(c));
}

#[verifier::spinoff_prover]
#[verifier::rlimit(100)]
proof fn lemma_closing_head_lines(c: RgbTexts, name: Seq<char>)
    requires
        line_value(name),
    ensures
        lines(closing_head(name)) == closing_lines(c, name).take(8),
{
    reveal_strlit("[General]\nColorScheme=");
    reveal_strlit("\nName=");
    reveal_strlit("\nshadeSortColumn=true\n\n[KDE]\ncontrast=4\n\n");
    reveal_strlit("4");
    reveal_strlit("ColorScheme");
    reveal_strlit("General");
    reveal_strlit("KDE");
    reveal_strlit("Name");
    reveal_strlit("contrast");
    reveal_strlit("shadeSortColumn");
    reveal_strlit("true");
    lemma_header_facts("General"@);
    lemma_kv_facts("ColorScheme"@, name);
    assert(kv_line("ColorScheme"@, name).last() == (if name.len() > 0 { name.last() } else { '=' }));
    lemma_kv_facts("Name"@, name);
    assert(kv_line("Name"@, name).last() == (if name.len() > 0 { name.last() } else { '=' }));
    lemma_kv_facts("shadeSortColumn"@, "true"@);
    assert(kv_line("shadeSortColumn"@, "true"@).last() == (if "true"@.len() > 0 { "true"@.last() } else { '=' }));
    lemma_header_facts("KDE"@);
    lemma_kv_facts("contrast"@, "4"@);
    assert(kv_line("contrast"@, "4"@).last() == (if "4"@.len() > 0 { "4"@.last() } else { '=' }));
    let xs = seq![group_header("General"@), kv_line("ColorScheme"@, name), kv_line("Name"@, name), kv_line("shadeSortColumn"@, "true"@), Seq::<char>::empty(), group_header("KDE"@), kv_line("contrast"@, "4"@), Seq::<char>::empty()];
    let r7 = xs[7].push('\n');
    text::lemma_lines_one(xs[7]);
    assert(lines(r7) =~= xs.subrange(7, 8));
    let r6 = xs[6].push('\n') + r7;
    lemma_lines_cons(xs[6], r7);
    assert(lines(r6) =~= xs.subrange(6, 8));
    let r5 = xs[5].push('\n') + r6;
    lemma_lines_cons(xs[5], r6);
    assert(lines(r5) =~= xs.subrange(5, 8));
    let r4 = xs[4].push('\n') + r5;
    lemma_lines_cons(xs[4], r5);
    assert(lines(r4) =~= xs.subrange(4, 8));
    let r3 = xs[3].push('\n') + r4;
    lemma_lines_cons(xs[3], r4);
    assert(lines(r3) =~= xs.subrange(3, 8));
    let r2 = xs[2].push('\n') + r3;
    lemma_lines_cons(xs[2], r3);
    assert(lines(r2) =~= xs.subrange(2, 8));
    let r1 = xs[1].push('\n') + r2;
    lemma_lines_cons(xs[1], r2);
    assert(lines(r1) =~= xs.subrange(1, 8));
    let r0 = xs[0].push('\n') + r1;
    lemma_lines_cons(xs[0], r1);
    assert(lines(r0) =~= xs.subrange(0, 8));
    assert(closing_head(name) =~= r0);
    assert(xs.subrange(0, 8) =~= xs);
    assert(closing_lines(c, name).take(8) =~= xs);
}

spec fn wm_head(c: RgbTexts) -> Seq<char> {
    "[WM]\nactiveBackground="@ + c.surface_container + "\nactiveBlend="@ + c.primary + "\nactiveForeground="@
        + c.on_surface + "\n"@
}

spec fn wm_tail(c: RgbTexts) -> Seq<char> {
    "inactiveBackground="@ + c.surface_container_low + "\ninactiveBlend="@ + c.surface_dim
        + "\ninactiveForeground="@ + c.on_surface_variant + "\nframe="@ + c.surface_container_low + "\n"@
}

proof fn lemma_wm_split(c: RgbTexts)
    ensures
        closing_wm(c) == wm_head(c) + wm_tail(c),
        wm_head(c).len() > 0,
        wm_head(c).last() == '\n',
{
    reveal_strlit("\ninactiveBackground=");
    reveal_strlit("inactiveBackground=");
    reveal_strlit("\n");
    assert("\ninactiveBackground="@ =~= "\n"@ + "inactiveBackground="@);
    assert(closing_wm(c) =~= wm_head(c) + wm_tail(c));
}

#[verifier::spinoff_prover]
#[verifier::rlimit(100)]
proof fn lemma_wm_head_lines(c: RgbTexts, name: Seq<char>)
    requires
        rgb_lines_ok(c),
    ensures
        lines(wm_head(c)) == closing_lines(c, name).subrange(8, 12),
{
    reveal_strlit("[WM]\nactiveBackground=");
    reveal_strlit("\nactiveBlend=");
    reveal_strlit("\nactiveForeground=");
    reveal_strlit("\n");
    reveal_strlit("WM");
    reveal_strlit("activeBackground");
    reveal_strlit("activeBlend");
    reveal_strlit("activeForeground");
    lemma_header_facts("WM"@);
    lemma_kv_facts("activeBackground"@, c.surface_container);
    assert(kv_line("activeBackground"@, c.surface_container).last() == (if c.surface_container.len() > 0 { c.surface_container.last() } else { '=' }));
    lemma_kv_facts("activeBlend"@, c.primary);
    assert(kv_line("activeBlend"@, c.primary).last() == (if c.primary.len() > 0 { c.primary.last() } else { '=' }));
    lemma_kv_facts("activeForeground"@, c.on_surface);
    assert(kv_line("activeForeground"@, c.on_surface).last() == (if c.on_surface.len() > 0 { c.on_surface.last() } else { '=' }));
    let xs = seq![group_header("WM"@), kv_line("activeBackground"@, c.surface_container), kv_line("activeBlend"@, c.primary), kv_line("activeForeground"@, c.on_surface)];
    let r3 = xs[3].push('\n');
    text::lemma_lines_one(xs[3]);
    assert(lines(r3) =~= xs.subrange(3, 4));
    let r2 = xs[2].push('\n') + r3;
    lemma_lines_cons(xs[2], r3);
    assert(lines(r2) =~= xs.subrange(2, 4));
    let r1 = xs[1].push('\n') + r2;
    lemma_lines_cons(xs[1], r2);
    assert(lines(r1) =~= xs.subrange(1, 4));
    let r0 = xs[0].push('\n') + r1;
    lemma_lines_cons(xs[0], r1);
    assert(lines(r0) =~= xs.subrange(0, 4));
    assert(wm_head(c) =~= r0);
    assert(xs.subrange(0, 4) =~= xs);
    assert(closing_lines(c, name).subrange(8, 12) =~= xs);
}

#[verifier::spinoff_prover]
#[verifier::rlimit(100)]
proof fn lemma_wm_tail_lines(c: RgbTexts, name: Seq<char>)
    requires
        rgb_lines_ok(c),
        line_value(c.surface_dim),
    ensures
        lines(wm_tail(c)) == closing_lines(c, name).subrange(12, 16),
{
    reveal_strlit("inactiveBackground=");
    reveal_strlit("\ninactiveBlend=");
    reveal_strlit("\ninactiveForeground=");
    reveal_strlit("\nframe=");
    reveal_strlit("\n");
    reveal_strlit("frame");
    reveal_strlit("inactiveBackground");
    reveal_strlit("inactiveBlend");
    reveal_strlit("inactiveForeground");
    lemma_kv_facts("inactiveBackground"@, c.surface_container_low);
    assert(kv_line("inactiveBackground"@, c.surface_container_low).last() == (if c.surface_container_low.len() > 0 { c.surface_container_low.last() } else { '=' }));
    lemma_kv_facts("inactiveBlend"@, c.surface_dim);
    assert(kv_line("inactiveBlend"@, c.surface_dim).last() == (if c.surface_dim.len() > 0 { c.surface_dim.last() } else { '=' }));
    lemma_kv_facts("inactiveForeground"@, c.on_surface_variant);
    assert(kv_line("inactiveForeground"@, c.on_surface_variant).last() == (if c.on_surface_variant.len() > 0 { c.on_surface_variant.last() } else { '=' }));
    lemma_kv_facts("frame"@, c.surface_container_low);
    assert(kv_line("frame"@, c.surface_container_low).last() == (if c.surface_container_low.len() > 0 { c.surface_container_low.last() } else { '=' }));
    let xs = seq![kv_line("inactiveBackground"@, c.surface_container_low), kv_line("inactiveBlend"@, c.surface_dim), kv_line("inactiveForeground"@, c.on_surface_variant), kv_line("frame"@, c.surface_container_low)];
    let r3 = xs[3].push('\n');
    text::lemma_lines_one(xs[3]);
    assert(lines(r3) =~= xs.subrange(3, 4));
    let r2 = xs[2].push('\n') + r3;
    lemma_lines_cons(xs[2], r3);
    assert(lines(r2) =~= xs.subrange(2, 4));
    let r1 = xs[1].push('\n') + r2;
    lemma_lines_cons(xs[1], r2);
    assert(lines(r1) =~= xs.subrange(1, 4));
    let r0 = xs[0].push('\n') + r1;
    lemma_lines_cons(xs[0], r1);
    assert(lines(r0) =~= xs.subrange(0, 4));
    assert(wm_tail(c) =~= r0);
    assert(xs.subrange(0, 4) =~= xs);
    assert(closing_lines(c, name).subrange(12, 16) =~= xs);
}

proof fn lemma_closing_wm_lines(c: RgbTexts, name: Seq<char>)
    requires
        rgb_lines_ok(c),
        line_value(c.surface_dim),
    ensures
        lines(closing_wm(c)) == closing_lines(c, name).skip(8),
{
    lemma_wm_split(c);
    lemma_wm_head_lines(c, name);
    lemma_wm_tail_lines(c, name);
    text::lemma_lines_append(wm_head(c), wm_tail(c));
    assert(closing_lines(c, name).skip(8) =~= closing_lines(c, name).subrange(8, 12) + closing_lines(c, name).subrange(12, 16));
}

proof fn lemma_closing_lines(c: RgbTexts, name: Seq<char>)
    requires
        rgb_lines_ok(c),
        line_value(c.surface_dim),
        line_value(name),
    ensures
        lines(closing_text(c, name)) == closing_lines(c, name),
{
    lemma_closing_split(c, name);
    lemma_closing_head_lines(c, name);
    lemma_closing_wm_lines(c, name);
    text::lemma_lines_append(closing_head(name), closing_wm(c));
    assert(closing_lines(c, name) =~= closing_lines(c, name).take(8) + closing_lines(c, name).skip(8));
}

/// The `[Colors:*]` groups hold no header of another group.
proof fn lemma_groups_quiet(c: RgbTexts, t: Seq<char>)
    requires
        rgb_lines_ok(c),
        t != "Colors:Button"@,
        t != "Colors:Complementary"@,
        t != "Colors:Header"@,
        t != "Colors:Header][Inactive"@,
        t != "Colors:Selection"@,
        t != "Colors:Tooltip"@,
        t != "Colors:View"@,
        t != "Colors:Window"@,
    ensures
        quiet(groups_text(c), t),
        groups_text(c).len() > 0,
        groups_text(c).last() == '\n',
{
    lemma_surface_lines(c.surface_container_high, c.surface_container, c);
    reveal_strlit("Colors:Button");
    lemma_group_quiet("Colors:Button"@, surface_group(c.surface_container_high, c.surface_container, c), t);
    let g0 = color_group("Colors:Button"@, surface_group(c.surface_container_high, c.surface_container, c));
    lemma_surface_lines(c.surface_container_high, c.surface, c);
    reveal_strlit("Colors:Complementary");
    lemma_group_quiet("Colors:Complementary"@, surface_group(c.surface_container_high, c.surface, c), t);
    let g1 = color_group("Colors:Complementary"@, surface_group(c.surface_container_high, c.surface, c));
    lemma_surface_lines(c.surface_container, c.surface, c);
    reveal_strlit("Colors:Header");
    lemma_group_quiet("Colors:Header"@, surface_group(c.surface_container, c.surface, c), t);
    let g2 = color_group("Colors:Header"@, surface_group(c.surface_container, c.surface, c));
    lemma_surface_lines(c.surface_container, c.surface, c);
    reveal_strlit("Colors:Header][Inactive");
    lemma_group_quiet("Colors:Header][Inactive"@, surface_group(c.surface_container, c.surface, c), t);
    let g3 = color_group("Colors:Header][Inactive"@, surface_group(c.surface_container, c.surface, c));
    lemma_selection_lines(c);
    reveal_strlit("Colors:Selection");
    lemma_group_quiet("Colors:Selection"@, selection_group(c), t);
    let g4 = color_group("Colors:Selection"@, selection_group(c));
    lemma_surface_lines(c.surface_container_highest, c.surface_container_high, c);
    reveal_strlit("Colors:Tooltip");
    lemma_group_quiet("Colors:Tooltip"@, surface_group(c.surface_container_highest, c.surface_container_high, c), t);
    let g5 = color_group("Colors:Tooltip"@, surface_group(c.surface_container_highest, c.surface_container_high, c));
    lemma_surface_lines(c.surface_container_low, c.surface, c);
    reveal_strlit("Colors:View");
    lemma_group_quiet("Colors:View"@, surface_group(c.surface_container_low, c.surface, c), t);
    let g6 = color_group("Colors:View"@, surface_group(c.surface_container_low, c.surface, c));
    lemma_surface_lines(c.surface_container, c.surface_container_low, c);
    reveal_strlit("Colors:Window");
    lemma_group_quiet("Colors:Window"@, surface_group(c.surface_container, c.surface_container_low, c), t);
    let g7 = color_group("Colors:Window"@, surface_group(c.surface_container, c.surface_container_low, c));
    let a0 = g0;
    lemma_quiet_append(a0, g1, t);
    lemma_ends_after(a0, g1);
    let a1 = a0 + g1;
    lemma_quiet_append(a1, g2, t);
    lemma_ends_after(a1, g2);
    let a2 = a1 + g2;
    lemma_quiet_append(a2, g3, t);
    lemma_ends_after(a2, g3);
    let a3 = a2 + g3;
    lemma_quiet_append(a3, g4, t);
    lemma_ends_after(a3, g4);
    let a4 = a3 + g4;
    lemma_quiet_append(a4, g5, t);
    lemma_ends_after(a4, g5);
    let a5 = a4 + g5;
    lemma_quiet_append(a5, g6, t);
    lemma_ends_after(a5, g6);
    let a6 = a5 + g6;
    lemma_quiet_append(a6, g7, t);
    lemma_ends_after(a6, g7);
    let a7 = a6 + g7;
    assert(groups_text(c) == a7);
}

/// No line of the effects groups is the header of another group.
proof fn lemma_effects_lines_quiet(c: RgbTexts, t: Seq<char>)
    requires
        line_value(c.on_surface_variant),
        line_value(c.surface),
        t != "ColorEffects:Disabled"@,
    ensures
        forall|k: int|
            0 <= k < 20 && (k != 9 || t != "ColorEffects:Inactive"@) ==> trim(#[trigger] effects_lines(c)[k])
                != group_header(t),
{
    reveal_strlit("0");
    reveal_strlit("0.025");
    reveal_strlit("0.1");
    reveal_strlit("0.55");
    reveal_strlit("0.65");
    reveal_strlit("1");
    reveal_strlit("2");
    reveal_strlit("3");
    reveal_strlit("ChangeSelectionColor");
    reveal_strlit("Color");
    reveal_strlit("ColorAmount");
    reveal_strlit("ColorEffect");
    reveal_strlit("ColorEffects:Disabled");
    reveal_strlit("ColorEffects:Inactive");
    reveal_strlit("ContrastAmount");
    reveal_strlit("ContrastEffect");
    reveal_strlit("Enable");
    reveal_strlit("IntensityAmount");
    reveal_strlit("IntensityEffect");
    reveal_strlit("false");
    reveal_strlit("true");
    let es = effects_lines(c);
    let th = group_header(t);
    assert(is_group_line(th)) by {
        assert(th[0] == '[');
        assert(th.last() == ']');
    }
    assert forall|k: int| 0 <= k < 20 && (k != 9 || t != "ColorEffects:Inactive"@) implies trim(#[trigger] es[k]) != th by {
        if k == 0 {
            lemma_header_facts("ColorEffects:Disabled"@);
            if es[k] == th {
                lemma_header_injective("ColorEffects:Disabled"@, t);
            }
        } else if k == 1 {
            lemma_kv_facts("Color"@, c.on_surface_variant);
        } else if k == 2 {
            lemma_kv_facts("ColorAmount"@, "0.55"@);
        } else if k == 3 {
            lemma_kv_facts("ColorEffect"@, "3"@);
        } else if k == 4 {
            lemma_kv_facts("ContrastAmount"@, "0.65"@);
        } else if k == 5 {
            lemma_kv_facts("ContrastEffect"@, "1"@);
        } else if k == 6 {
            lemma_kv_facts("IntensityAmount"@, "0.1"@);
        } else if k == 7 {
            lemma_kv_facts("IntensityEffect"@, "2"@);
        } else if k == 8 {
            assert(trim(Seq::<char>::empty()) == Seq::<char>::empty());
        } else if k == 9 {
            lemma_header_facts("ColorEffects:Inactive"@);
            if es[k] == th {
                lemma_header_injective("ColorEffects:Inactive"@, t);
            }
        } else if k == 10 {
            lemma_kv_facts("ChangeSelectionColor"@, "true"@);
        } else if k == 11 {
            lemma_kv_facts("Color"@, c.surface);
        } else if k == 12 {
            lemma_kv_facts("ColorAmount"@, "0.025"@);
        } else if k == 13 {
            lemma_kv_facts("ColorEffect"@, "2"@);
        } else if k == 14 {
            lemma_kv_facts("ContrastAmount"@, "0.1"@);
        } else if k == 15 {
            lemma_kv_facts("ContrastEffect"@, "2"@);
        } else if k == 16 {
            lemma_kv_facts("Enable"@, "false"@);
        } else if k == 17 {
            lemma_kv_facts("IntensityAmount"@, "0"@);
        } else if k == 18 {
            lemma_kv_facts("IntensityEffect"@, "0"@);
        } else if k == 19 {
            assert(trim(Seq::<char>::empty()) == Seq::<char>::empty());
        }
    }
}

/// The lines of a generated scheme: the effects groups, the color groups,
/// then the closing groups.
proof fn lemma_scheme_lines(c: RgbTexts, name: Seq<char>)
    requires
        rgb_lines_ok(c),
        line_value(c.surface_dim),
        line_value(name),
    ensures
        lines(scheme_text(c, name)) == effects_lines(c) + lines(groups_text(c)) + closing_lines(c, name),
        effects_lines(c).len() == 20,
        closing_lines(c, name).len() == 16,
{
    lemma_effects_lines(c);
    lemma_closing_lines(c, name);
    lemma_effects_end(c);
    lemma_group_ends("Colors:Window"@, surface_group(c.surface_container, c.surface_container_low, c));
    lemma_ends_after(
        color_group("Colors:Button"@, surface_group(c.surface_container_high, c.surface_container, c))
            + color_group("Colors:Complementary"@, surface_group(c.surface_container_high, c.surface, c))
            + color_group("Colors:Header"@, surface_group(c.surface_container, c.surface, c))
            + color_group("Colors:Header][Inactive"@, surface_group(c.surface_container, c.surface, c))
            + color_group("Colors:Selection"@, selection_group(c))
            + color_group("Colors:Tooltip"@, surface_group(c.surface_container_highest, c.surface_container_high, c))
            + color_group("Colors:View"@, surface_group(c.surface_container_low, c.surface, c)),
        color_group("Colors:Window"@, surface_group(c.surface_container, c.surface_container_low, c)),
    );
    let e = effects_text(c);
    let g = groups_text(c);
    let cl = closing_text(c, name);
    assert(scheme_text(c, name) =~= e + (g + cl));
    text::lemma_lines_append(e, g + cl);
    text::lemma_lines_append(g, cl);
}

/// The effects groups of a generated scheme read back their colors.
#[verifier::rlimit(60)]
proof fn lemma_effects_reads(c: RgbTexts, name: Seq<char>)
    requires
        rgb_lines_ok(c),
        line_value(c.surface_dim),
        line_value(name),
    ensures
        read_ini_value_of(scheme_text(c, name), "ColorEffects:Disabled"@, "Color"@) == Some(c.on_surface_variant),
        read_ini_value_of(scheme_text(c, name), "ColorEffects:Inactive"@, "Color"@) == Some(c.surface),
{
    lemma_scheme_lines(c, name);
    let es = effects_lines(c);
    let ls = lines(scheme_text(c, name));
    assert forall|k: int| 0 <= k < 20 implies #[trigger] ls[k] == es[k] by {}
    reveal_strlit("ChangeSelectionColor");
    reveal_strlit("Color");
    reveal_strlit("ColorEffects:Disabled");
    reveal_strlit("ColorEffects:Inactive");
    reveal_strlit("true");
    assert("ColorEffects:Disabled"@[13] != "ColorEffects:Inactive"@[13]);
    lemma_header_facts("ColorEffects:Disabled"@);
    lemma_header_facts("ColorEffects:Inactive"@);
    lemma_kv_facts("Color"@, c.on_surface_variant);
    lemma_kv_facts("Color"@, c.surface);
    lemma_kv_facts("ChangeSelectionColor"@, "true"@);
    assert(ls[0] == es[0] && ls[1] == es[1] && ls[9] == es[9] && ls[10] == es[10] && ls[11] == es[11]);
    lemma_read_exact(ls, "ColorEffects:Disabled"@, "Color"@, 0, 1);
    lemma_effects_lines_quiet(c, "ColorEffects:Inactive"@);
    assert forall|k: int| 0 <= k < 9 implies trim(#[trigger] ls[k]) != group_header("ColorEffects:Inactive"@) by {
        assert(ls[k] == es[k]);
    }
    lemma_one_key(kv_line("ChangeSelectionColor"@, "true"@), "ChangeSelectionColor"@, "Color"@);
    lemma_read_exact(ls, "ColorEffects:Inactive"@, "Color"@, 9, 11);
}

/// The closing groups of a generated scheme read back the scheme's name and
/// the window manager's colors.
#[verifier::spinoff_prover]
#[verifier::rlimit(100)]
proof fn lemma_closing_reads(c: RgbTexts, name: Seq<char>)
    requires
        rgb_lines_ok(c),
        line_value(c.surface_dim),
        line_value(name),
    ensures
        read_ini_value_of(scheme_text(c, name), "General"@, "ColorScheme"@) == Some(name),
        read_ini_value_of(scheme_text(c, name), "General"@, "Name"@) == Some(name),
        read_ini_value_of(scheme_text(c, name), "WM"@, "activeBackground"@) == Some(c.surface_container),
        read_ini_value_of(scheme_text(c, name), "WM"@, "activeBlend"@) == Some(c.primary),
        read_ini_value_of(scheme_text(c, name), "WM"@, "activeForeground"@) == Some(c.on_surface),
        read_ini_value_of(scheme_text(c, name), "WM"@, "inactiveBackground"@) == Some(c.surface_container_low),
        read_ini_value_of(scheme_text(c, name), "WM"@, "inactiveBlend"@) == Some(c.surface_dim),
        read_ini_value_of(scheme_text(c, name), "WM"@, "inactiveForeground"@) == Some(c.on_surface_variant),
        read_ini_value_of(scheme_text(c, name), "WM"@, "frame"@) == Some(c.surface_container_low),
{
    lemma_scheme_lines(c, name);
    let es = effects_lines(c);
    let gl = lines(groups_text(c));
    let cl = closing_lines(c, name);
    let ls = lines(scheme_text(c, name));
    let base: int = 20 + gl.len() as int;
    assert forall|k: int| base <= k < base + 16 implies #[trigger] ls[k] == cl[k - base] by {}
    reveal_strlit("4");
    reveal_strlit("ColorEffects:Disabled");
    reveal_strlit("ColorScheme");
    reveal_strlit("Colors:Button");
    reveal_strlit("Colors:Complementary");
    reveal_strlit("Colors:Header");
    reveal_strlit("Colors:Header][Inactive");
    reveal_strlit("Colors:Selection");
    reveal_strlit("Colors:Tooltip");
    reveal_strlit("Colors:View");
    reveal_strlit("Colors:Window");
    reveal_strlit("General");
    reveal_strlit("KDE");
    reveal_strlit("Name");
    reveal_strlit("WM");
    reveal_strlit("activeBackground");
    reveal_strlit("activeBlend");
    reveal_strlit("activeForeground");
    reveal_strlit("contrast");
    reveal_strlit("frame");
    reveal_strlit("inactiveBackground");
    reveal_strlit("inactiveBlend");
    reveal_strlit("inactiveForeground");
    reveal_strlit("shadeSortColumn");
    reveal_strlit("true");
    assert("General"@.len() != "ColorEffects:Disabled"@.len());
    assert("Colors:Button"@.len() != "General"@.len());
    assert("Colors:Complementary"@.len() != "General"@.len());
    assert("Colors:Header"@.len() != "General"@.len());
    assert("Colors:Header][Inactive"@.len() != "General"@.len());
    assert("Colors:Selection"@.len() != "General"@.len());
    assert("Colors:Tooltip"@.len() != "General"@.len());
    assert("Colors:View"@.len() != "General"@.len());
    assert("Colors:Window"@.len() != "General"@.len());
    reveal_strlit("ColorEffects:Inactive");
    assert("General"@.len() != "ColorEffects:Inactive"@.len());
    lemma_effects_lines_quiet(c, "General"@);
    lemma_groups_quiet(c, "General"@);
    assert("WM"@.len() != "ColorEffects:Disabled"@.len());
    assert("Colors:Button"@.len() != "WM"@.len());
    assert("Colors:Complementary"@.len() != "WM"@.len());
    assert("Colors:Header"@.len() != "WM"@.len());
    assert("Colors:Header][Inactive"@.len() != "WM"@.len());
    assert("Colors:Selection"@.len() != "WM"@.len());
    assert("Colors:Tooltip"@.len() != "WM"@.len());
    assert("Colors:View"@.len() != "WM"@.len());
    assert("Colors:Window"@.len() != "WM"@.len());
    reveal_strlit("ColorEffects:Inactive");
    assert("WM"@.len() != "ColorEffects:Inactive"@.len());
    lemma_effects_lines_quiet(c, "WM"@);
    lemma_groups_quiet(c, "WM"@);
    assert("General"@.len() != "WM"@.len());
    assert("KDE"@.len() != "WM"@.len());
    assert("ColorScheme"@.len() != "Name"@.len());
    assert("ColorScheme"@.len() != "shadeSortColumn"@.len());
    assert("ColorScheme"@.len() != "contrast"@.len());
    assert("ColorScheme"@.len() != "activeBackground"@.len());
    assert("ColorScheme"@[0] != "activeBlend"@[0]);
    assert("ColorScheme"@.len() != "activeForeground"@.len());
    assert("ColorScheme"@.len() != "inactiveBackground"@.len());
    assert("ColorScheme"@.len() != "inactiveBlend"@.len());
    assert("ColorScheme"@.len() != "inactiveForeground"@.len());
    assert("ColorScheme"@.len() != "frame"@.len());
    assert("Name"@.len() != "shadeSortColumn"@.len());
    assert("Name"@.len() != "contrast"@.len());
    assert("Name"@.len() != "activeBackground"@.len());
    assert("Name"@.len() != "activeBlend"@.len());
    assert("Name"@.len() != "activeForeground"@.len());
    assert("Name"@.len() != "inactiveBackground"@.len());
    assert("Name"@.len() != "inactiveBlend"@.len());
    assert("Name"@.len() != "inactiveForeground"@.len());
    assert("Name"@.len() != "frame"@.len());
    assert("shadeSortColumn"@.len() != "contrast"@.len());
    assert("shadeSortColumn"@.len() != "activeBackground"@.len());
    assert("shadeSortColumn"@.len() != "activeBlend"@.len());
    assert("shadeSortColumn"@.len() != "activeForeground"@.len());
    assert("shadeSortColumn"@.len() != "inactiveBackground"@.len());
    assert("shadeSortColumn"@.len() != "inactiveBlend"@.len());
    assert("shadeSortColumn"@.len() != "inactiveForeground"@.len());
    assert("shadeSortColumn"@.len() != "frame"@.len());
    assert("contrast"@.len() != "activeBackground"@.len());
    assert("contrast"@.len() != "activeBlend"@.len());
    assert("contrast"@.len() != "activeForeground"@.len());
    assert("contrast"@.len() != "inactiveBackground"@.len());
    assert("contrast"@.len() != "inactiveBlend"@.len());
    assert("contrast"@.len() != "inactiveForeground"@.len());
    assert("contrast"@.len() != "frame"@.len());
    assert("activeBackground"@.len() != "activeBlend"@.len());
    assert("activeBackground"@[6] != "activeForeground"@[6]);
    assert("activeBackground"@.len() != "inactiveBackground"@.len());
    assert("activeBackground"@.len() != "inactiveBlend"@.len());
    assert("activeBackground"@.len() != "inactiveForeground"@.len());
    assert("activeBackground"@.len() != "frame"@.len());
    assert("activeBlend"@.len() != "activeForeground"@.len());
    assert("activeBlend"@.len() != "inactiveBackground"@.len());
    assert("activeBlend"@.len() != "inactiveBlend"@.len());
    assert("activeBlend"@.len() != "inactiveForeground"@.len());
    assert("activeBlend"@.len() != "frame"@.len());
    assert("activeForeground"@.len() != "inactiveBackground"@.len());
    assert("activeForeground"@.len() != "inactiveBlend"@.len());
    assert("activeForeground"@.len() != "inactiveForeground"@.len());
    assert("activeForeground"@.len() != "frame"@.len());
    assert("inactiveBackground"@.len() != "inactiveBlend"@.len());
    assert("inactiveBackground"@[8] != "inactiveForeground"@[8]);
    assert("inactiveBackground"@.len() != "frame"@.len());
    assert("inactiveBlend"@.len() != "inactiveForeground"@.len());
    assert("inactiveBlend"@.len() != "frame"@.len());
    assert("inactiveForeground"@.len() != "frame"@.len());
    lemma_header_facts("General"@);
    lemma_kv_facts("ColorScheme"@, name);
    lemma_kv_facts("Name"@, name);
    lemma_kv_facts("shadeSortColumn"@, "true"@);
    assert(trim(Seq::<char>::empty()) == Seq::<char>::empty());
    lemma_header_facts("KDE"@);
    lemma_kv_facts("contrast"@, "4"@);
    assert(trim(Seq::<char>::empty()) == Seq::<char>::empty());
    lemma_header_facts("WM"@);
    lemma_kv_facts("activeBackground"@, c.surface_container);
    lemma_kv_facts("activeBlend"@, c.primary);
    lemma_kv_facts("activeForeground"@, c.on_surface);
    lemma_kv_facts("inactiveBackground"@, c.surface_container_low);
    lemma_kv_facts("inactiveBlend"@, c.surface_dim);
    lemma_kv_facts("inactiveForeground"@, c.on_surface_variant);
    lemma_kv_facts("frame"@, c.surface_container_low);
    assert forall|k: int| 0 <= k < base + 0 implies trim(#[trigger] ls[k]) != group_header("General"@) by {
        if k < 20 {
            assert(ls[k] == es[k]);
        } else if k < base {
            assert(ls[k] == gl[k - 20]);
        } else {
            assert(ls[k] == cl[k - base]);
        }
    }
    lemma_read_exact(ls, "General"@, "ColorScheme"@, base, base + 1);
    assert forall|k: int| base + 1 < k < base + 2 implies !is_group_line(trim(#[trigger] ls[k])) && !has_key(trim(ls[k]), "Name"@) by {
        assert(ls[k] == cl[k - base]);
    }
    lemma_read_exact(ls, "General"@, "Name"@, base, base + 2);
    assert forall|k: int| 0 <= k < base + 8 implies trim(#[trigger] ls[k]) != group_header("WM"@) by {
        if k < 20 {
            assert(ls[k] == es[k]);
        } else if k < base {
            assert(ls[k] == gl[k - 20]);
        } else {
            assert(ls[k] == cl[k - base]);
            if k == base + 0 {
                lemma_header_facts("General"@);
                if cl[0] == group_header("WM"@) {
                    lemma_header_injective("General"@, "WM"@);
                }
            } else if k == base + 1 {
                lemma_kv_facts("ColorScheme"@, name);
            } else if k == base + 2 {
                lemma_kv_facts("Name"@, name);
            } else if k == base + 3 {
                lemma_kv_facts("shadeSortColumn"@, "true"@);
            } else if k == base + 4 {
                assert(trim(Seq::<char>::empty()) == Seq::<char>::empty());
            } else if k == base + 5 {
                lemma_header_facts("KDE"@);
                if cl[5] == group_header("WM"@) {
                    lemma_header_injective("KDE"@, "WM"@);
                }
            } else if k == base + 6 {
                lemma_kv_facts("contrast"@, "4"@);
            } else if k == base + 7 {
                assert(trim(Seq::<char>::empty()) == Seq::<char>::empty());
            }
        }
    }
    lemma_read_exact(ls, "WM"@, "activeBackground"@, base + 8, base + 9);
    assert forall|k: int| base + 9 < k < base + 10 implies !is_group_line(trim(#[trigger] ls[k])) && !has_key(trim(ls[k]), "activeBlend"@) by {
        assert(ls[k] == cl[k - base]);
    }
    lemma_read_exact(ls, "WM"@, "activeBlend"@, base + 8, base + 10);
    assert forall|k: int| base + 9 < k < base + 11 implies !is_group_line(trim(#[trigger] ls[k])) && !has_key(trim(ls[k]), "activeForeground"@) by {
        assert(ls[k] == cl[k - base]);
        if k == base + 10 {
            lemma_kv_facts("activeBlend"@, c.primary);
            lemma_one_key(cl[10], "activeBlend"@, "activeForeground"@);
        }
    }
    lemma_read_exact(ls, "WM"@, "activeForeground"@, base + 8, base + 11);
    assert forall|k: int| base + 9 < k < base + 12 implies !is_group_line(trim(#[trigger] ls[k])) && !has_key(trim(ls[k]), "inactiveBackground"@) by {
        assert(ls[k] == cl[k - base]);
        if k == base + 10 {
            lemma_kv_facts("activeBlend"@, c.primary);
            lemma_one_key(cl[10], "activeBlend"@, "inactiveBackground"@);
        } else if k == base + 11 {
            lemma_kv_facts("activeForeground"@, c.on_surface);
            lemma_one_key(cl[11], "activeForeground"@, "inactiveBackground"@);
        }
    }
    lemma_read_exact(ls, "WM"@, "inactiveBackground"@, base + 8, base + 12);
    assert forall|k: int| base + 9 < k < base + 13 implies !is_group_line(trim(#[trigger] ls[k])) && !has_key(trim(ls[k]), "inactiveBlend"@) by {
        assert(ls[k] == cl[k - base]);
        if k == base + 10 {
            lemma_kv_facts("activeBlend"@, c.primary);
            lemma_one_key(cl[10], "activeBlend"@, "inactiveBlend"@);
        } else if k == base + 11 {
            lemma_kv_facts("activeForeground"@, c.on_surface);
            lemma_one_key(cl[11], "activeForeground"@, "inactiveBlend"@);
        } else if k == base + 12 {
            lemma_kv_facts("inactiveBackground"@, c.surface_container_low);
            lemma_one_key(cl[12], "inactiveBackground"@, "inactiveBlend"@);
        }
    }
    lemma_read_exact(ls, "WM"@, "inactiveBlend"@, base + 8, base + 13);
    assert forall|k: int| base + 9 < k < base + 14 implies !is_group_line(trim(#[trigger] ls[k])) && !has_key(trim(ls[k]), "inactiveForeground"@) by {
        assert(ls[k] == cl[k - base]);
        if k == base + 10 {
            lemma_kv_facts("activeBlend"@, c.primary);
            lemma_one_key(cl[10], "activeBlend"@, "inactiveForeground"@);
        } else if k == base + 11 {
            lemma_kv_facts("activeForeground"@, c.on_surface);
            lemma_one_key(cl[11], "activeForeground"@, "inactiveForeground"@);
        } else if k == base + 12 {
            lemma_kv_facts("inactiveBackground"@, c.surface_container_low);
            lemma_one_key(cl[12], "inactiveBackground"@, "inactiveForeground"@);
        } else if k == base + 13 {
            lemma_kv_facts("inactiveBlend"@, c.surface_dim);
            lemma_one_key(cl[13], "inactiveBlend"@, "inactiveForeground"@);
        }
    }
    lemma_read_exact(ls, "WM"@, "inactiveForeground"@, base + 8, base + 14);
    assert forall|k: int| base + 9 < k < base + 15 implies !is_group_line(trim(#[trigger] ls[k])) && !has_key(trim(ls[k]), "frame"@) by {
        assert(ls[k] == cl[k - base]);
        if k == base + 10 {
            lemma_kv_facts("activeBlend"@, c.primary);
            lemma_one_key(cl[10], "activeBlend"@, "frame"@);
        } else if k == base + 11 {
            lemma_kv_facts("activeForeground"@, c.on_surface);
            lemma_one_key(cl[11], "activeForeground"@, "frame"@);
        } else if k == base + 12 {
            lemma_kv_facts("inactiveBackground"@, c.surface_container_low);
            lemma_one_key(cl[12], "inactiveBackground"@, "frame"@);
        } else if k == base + 13 {
            lemma_kv_facts("inactiveBlend"@, c.surface_dim);
            lemma_one_key(cl[13], "inactiveBlend"@, "frame"@);
        } else if k == base + 14 {
            lemma_kv_facts("inactiveForeground"@, c.on_surface_variant);
            lemma_one_key(cl[14], "inactiveForeground"@, "frame"@);
        }
    }
    lemma_read_exact(ls, "WM"@, "frame"@, base + 8, base + 15);
}

/// In every scheme that `generate_kde_colorscheme` writes under a name that
/// stands on a line of its own, the effects groups read back the
/// `on_surface_variant` (disabled) and `surface` (inactive) colors, the
/// general group the scheme's name, and the window manager group its
/// frame and title bar colors from the palette.
pub proof fn lemma_generated_scheme_other_values(ctx: SchemeContext, name: Seq<char>)
    requires
        line_value(name),
    ensures
        ({
            let c = rgb_texts_of(ctx);
            let t = scheme_text(c, name);
            &&& read_ini_value_of(t, "ColorEffects:Disabled"@, "Color"@) == Some(c.on_surface_variant)
            &&& read_ini_value_of(t, "ColorEffects:Inactive"@, "Color"@) == Some(c.surface)
            &&& read_ini_value_of(t, "General"@, "ColorScheme"@) == Some(name)
            &&& read_ini_value_of(t, "General"@, "Name"@) == Some(name)
            &&& read_ini_value_of(t, "WM"@, "activeBackground"@) == Some(c.surface_container)
            &&& read_ini_value_of(t, "WM"@, "activeBlend"@) == Some(c.primary)
            &&& read_ini_value_of(t, "WM"@, "activeForeground"@) == Some(c.on_surface)
            &&& read_ini_value_of(t, "WM"@, "inactiveBackground"@) == Some(c.surface_container_low)
            &&& read_ini_value_of(t, "WM"@, "inactiveBlend"@) == Some(c.surface_dim)
            &&& read_ini_value_of(t, "WM"@, "inactiveForeground"@) == Some(c.on_surface_variant)
            &&& read_ini_value_of(t, "WM"@, "frame"@) == Some(c.surface_container_low)
        }),
{
    lemma_generated_colors_on_lines(ctx);
    let c = rgb_texts_of(ctx);
    lemma_rgb_str_line(fallback_lookup(ctx, "surface_dim"@, "surface"@, "default"@)->0);
    lemma_effects_reads(c, name);
    lemma_closing_reads(c, name);
}

} // verus!
