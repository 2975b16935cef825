//! Preset model: wallpaper and template snapshots, imported file names,
//! timestamps and unique names.
use vstd::prelude::*;
use crate::context;
use crate::context::opt_view;
use crate::path;
use crate::settings::KdeIntegrationSettings;
use crate::text;
use crate::text::dec;

verus! {

#[derive(Debug, Clone)]
pub struct WallpaperInfo {
    pub filename: Option<String>,
    pub original_path: Option<String>,
    pub base64: Option<String>,
    pub mime_type: Option<String>,
    pub sha256: Option<String>,
}

#[derive(Debug, Clone)]
pub struct CustomColor {
    pub name: String,
    pub value: String,
    pub blend: bool,
}

#[derive(Debug, Clone)]
pub struct TemplateSnapshot {
    pub name: String,
    pub target_app: Option<String>,
    pub enabled: bool,
    pub input_path: Option<String>,
    pub output_path: Option<String>,
    pub template_type: Option<String>,
    pub content: Option<String>,
    pub pre_hook: Option<String>,
    pub post_hook: Option<String>,
}

#[derive(Debug, Clone)]
pub struct DesktopSettings {
    pub target_de: Option<String>,
    pub apply_wallpaper: bool,
    pub apply_kde_colorscheme: bool,
    pub apply_templates: bool,
    pub integrations: KdeIntegrationSettings,
}

impl DesktopSettings {
    /// Everything applied, no target desktop named, integrations disabled.
    pub fn default_settings() -> (r: DesktopSettings)
        ensures
            r.target_de is None,
            r.apply_wallpaper,
            r.apply_kde_colorscheme,
            r.apply_templates,
            !r.integrations.klassy.enabled,
            !r.integrations.rounded_corners.enabled,
    {
        DesktopSettings {
            target_de: None,
            apply_wallpaper: true,
            apply_kde_colorscheme: true,
            apply_templates: true,
            integrations: KdeIntegrationSettings::default(),
        }
    }
}

// ── MIME types ───────────────────────────────────────────────────────────────

/// The MIME type for a wallpaper file name, by its extension in any case.
/// (Unicode lowercasing maps no non-ASCII character to the ASCII letters of
/// these suffixes, so comparing the ASCII lowercase is the same test.)
pub open spec fn mime_type_of(filename: Seq<char>) -> Seq<char> {
    let lower = text::lower(filename);
    if text::ends_with(lower, ".png"@) {
        "image/png"@
    } else if text::ends_with(lower, ".jpg"@) || text::ends_with(lower, ".jpeg"@) {
        "image/jpeg"@
    } else if text::ends_with(lower, ".webp"@) {
        "image/webp"@
    } else if text::ends_with(lower, ".jxl"@) {
        "image/jxl"@
    } else {
        "application/octet-stream"@
    }
}

pub fn mime_type_from_filename(filename: &str) -> (r: String)
    ensures
        r@ == mime_type_of(filename@),
{
    let v = text::chars_of(filename);
    let lower = text::lower_exec(&v);
    if text::ends_with_str(&lower, ".png") {
        String::from_str("image/png")
    } else if text::ends_with_str(&lower, ".jpg") || text::ends_with_str(&lower, ".jpeg") {
        String::from_str("image/jpeg")
    } else if text::ends_with_str(&lower, ".webp") {
        String::from_str("image/webp")
    } else if text::ends_with_str(&lower, ".jxl") {
        String::from_str("image/jxl")
    } else {
        String::from_str("application/octet-stream")
    }
}

/// The wallpaper entry of a preset saved from a local path: its file name,
/// the path itself, and the MIME type by that name.
pub open spec fn wallpaper_info_for(p: Seq<char>, w: WallpaperInfo) -> bool {
    &&& context::opt_view(w.filename) == path::file_name(p)
    &&& context::opt_view(w.original_path) == Some(p)
    &&& w.base64 is None
    &&& context::opt_view(w.mime_type) == match path::file_name(p) {
        Some(f) => Some(mime_type_of(f)),
        None => None,
    }
    &&& w.sha256 is None
}

pub fn wallpaper_info_from_path(p: &str) -> (r: WallpaperInfo)
    ensures
        wallpaper_info_for(p@, r),
{
    let filename = path::file_name_exec(p);
    let mime = match &filename {
        Some(f) => Some(mime_type_from_filename(f.as_str())),
        None => None,
    };
    WallpaperInfo {
        filename,
        original_path: Some(String::from_str(p)),
        base64: None,
        mime_type: mime,
        sha256: None,
    }
}

// ── Imported file names ──────────────────────────────────────────────────────

/// An imported name is accepted only as a bare file name: no `..`, no `/` or
/// `\`, and equal to its own file name.
pub open spec fn safe_import_name(value: Seq<char>) -> bool {
    &&& path::file_name(value) == Some(value)
    &&& !text::contains(value, ".."@)
    &&& !text::contains(value, "/"@)
    &&& !text::contains(value, "\\"@)
}

pub open spec fn imported_filename_result(value: Seq<char>, label: Seq<char>) -> Result<
    Seq<char>,
    Seq<char>,
> {
    match path::file_name(value) {
        None => Err("Invalid "@ + label + " filename"@),
        Some(f) => if safe_import_name(value) {
            Ok(f)
        } else {
            Err(
                "Invalid "@ + label + " filename '"@ + value
                    + "': directory components are not allowed"@,
            )
        },
    }
}

/// Checks a file name carried by an imported preset before it is written
/// under a managed directory.
pub fn validate_imported_filename(value: &str, label: &str) -> (r: Result<String, String>)
    ensures
        r matches Ok(f) ==> imported_filename_result(value@, label@) == Ok::<
            Seq<char>,
            Seq<char>,
        >(f@),
        r matches Err(e) ==> imported_filename_result(value@, label@) == Err::<
            Seq<char>,
            Seq<char>,
        >(e@),
        r is Ok <==> safe_import_name(value@),
{
    let file_name = match path::file_name_exec(value) {
        Some(f) => f,
        None => {
            let mut msg = String::from_str("Invalid ");
            msg.append(label);
            msg.append(" filename");
            return Err(msg);
        },
    };
    let v = text::chars_of(value);
    if text::contains_str(&v, "..") || text::contains_str(&v, "/") || text::contains_str(&v, "\\")
        || !context::str_eq(file_name.as_str(), value) {
        let mut msg = String::from_str("Invalid ");
        msg.append(label);
        msg.append(" filename '");
        msg.append(value);
        msg.append("': directory components are not allowed");
        return Err(msg);
    }
    Ok(file_name)
}

// ── Paths with a home directory ──────────────────────────────────────────────

/// `~/rest` under the home directory (where one is known); other paths as given.
pub open spec fn expand_tilde_of(p: Seq<char>, home: Option<Seq<char>>) -> Seq<char> {
    if text::starts_with(p, "~/"@) && home is Some {
        path::join(home->0, p.skip(2))
    } else {
        p
    }
}

pub fn expand_tilde_str(p: &str, home: Option<&str>) -> (r: String)
    ensures
        r@ == expand_tilde_of(p@, match home {
            Some(h) => Some(h@),
            None => None,
        }),
{
    proof {
        reveal_strlit("~/");
    }
    let v = text::chars_of(p);
    if text::starts_with_str(&v, "~/") {
        if let Some(h) = home {
            let rest = text::slice_of(&v, 2, v.len());
            assert(rest@ =~= p@.skip(2));
            return path::join_exec(h, text::string_of(&rest).as_str());
        }
    }
    String::from_str(p)
}

// ── Template snapshots ───────────────────────────────────────────────────────

/// The text before the first `_` of an installed template key: the app it targets.
pub open spec fn target_app_of_key(key: Seq<char>) -> Seq<char> {
    text::split_char(key, '_')[0]
}

pub fn target_app_of(key: &str) -> (r: String)
    ensures
        r@ == target_app_of_key(key@),
{
    let v = text::chars_of(key);
    let parts = text::split_char_exec(&v, '_');
    proof {
        text::lemma_split_char_nonempty(v@, '_');
    }
    assert(parts@[0]@ == text::split_char(key@, '_')[0]);
    text::string_of(&parts[0])
}

/// The file name a snapshot uses: the input file's name, else the key with
/// `_` read as `.`.
pub open spec fn snapshot_file_name(key: Seq<char>, input_path: Option<Seq<char>>) -> Seq<char> {
    match input_path {
        Some(p) => match path::file_name(p) {
            Some(f) => f,
            None => text::replace_all(key, "_"@, "."@),
        },
        None => text::replace_all(key, "_"@, "."@),
    }
}

pub fn snapshot_name(key: &str, input_path: Option<&str>) -> (r: String)
    ensures
        r@ == snapshot_file_name(key@, match input_path {
            Some(p) => Some(p@),
            None => None,
        }),
{
    if let Some(p) = input_path {
        if let Some(f) = path::file_name_exec(p) {
            return f;
        }
    }
    let v = text::chars_of(key);
    let from = text::chars_of("_");
    let to = text::chars_of(".");
    let r = text::replace_exec(&v, &from, &to);
    text::string_of(&r)
}

// ── Unique preset names ──────────────────────────────────────────────────────

pub open spec fn numbered_name(base: Seq<char>, n: nat) -> Seq<char> {
    base + " ("@ + dec(n) + ")"@
}

pub open spec fn name_taken(existing: Seq<String>, name: Seq<char>) -> bool {
    exists|i: int| 0 <= i < existing.len() && #[trigger] existing[i]@ == name
}

fn name_taken_exec(existing: &Vec<String>, name: &str) -> (r: bool)
    ensures
        r == name_taken(existing@, name@),
{
    let mut i: usize = 0;
    while i < existing.len()
        invariant
            i <= existing.len(),
            forall|j: int| 0 <= j < i ==> #[trigger] existing@[j]@ != name@,
        decreases existing.len() - i,
    {
        if context::str_eq(existing[i].as_str(), name) {
            return true;
        }
        i = i + 1;
    }
    false
}

fn numbered_name_exec(base: &str, n: u64) -> (r: String)
    ensures
        r@ == numbered_name(base@, n as nat),
{
    let mut v = text::chars_of(base);
    text::push_str(&mut v, " (");
    text::push_dec(&mut v, n);
    text::push_str(&mut v, ")");
    text::string_of(&v)
}

/// A name not yet used by a stored preset: the name itself, else the name
/// followed by the first free ` (n)`, counting from 1.
pub fn unique_preset_name(existing: &Vec<String>, base: &str) -> (r: String)
    requires
        existing.len() < u64::MAX,
    ensures
        !name_taken(existing@, r@),
        !name_taken(existing@, base@) ==> r@ == base@,
        name_taken(existing@, base@) ==> exists|n: nat|
            1 <= n && r@ == numbered_name(base@, n) && forall|m: nat|
                1 <= m < n ==> name_taken(existing@, #[trigger] numbered_name(base@, m)),
{
    if !name_taken_exec(existing, base) {
        return String::from_str(base);
    }
    let mut counter: u64 = 1;
    loop
        invariant
            1 <= counter,
            name_taken(existing@, base@),
            counter <= existing.len() + 1,
            existing.len() < u64::MAX,
            forall|m: nat| 1 <= m < counter ==> name_taken(existing@, #[trigger] numbered_name(base@, m)),
        decreases existing.len() + 1 - counter,
    {
        let candidate = numbered_name_exec(base, counter);
        if !name_taken_exec(existing, candidate.as_str()) {
            return candidate;
        }
        proof {
            lemma_taken_names_bound(existing@, base@, counter as nat);
        }
        counter = counter + 1;
    }
}

pub proof fn lemma_numbered_names_distinct(base: Seq<char>, a: nat, b: nat)
    requires
        a != b,
    ensures
        numbered_name(base, a) != numbered_name(base, b),
{
    text::lemma_dec_digits(a);
    text::lemma_dec_digits(b);
    let na = numbered_name(base, a);
    let nb = numbered_name(base, b);
    if na == nb {
        reveal_strlit(" (");
        reveal_strlit(")");
        let k: int = base.len() + 2int;
        assert(na.subrange(k, na.len() - 1) =~= dec(a));
        assert(nb.subrange(k, nb.len() - 1) =~= dec(b));
        assert(dec(a) == dec(b));
    }
}

/// Distinct numbered names cannot all be taken by fewer stored presets.
proof fn lemma_taken_names_bound(existing: Seq<String>, base: Seq<char>, c: nat)
    requires
        forall|m: nat| 1 <= m <= c ==> name_taken(existing, #[trigger] numbered_name(base, m)),
    ensures
        c <= existing.len(),
{
    // Each taken name m picks an index holding it; distinct names pick distinct indices.
    let f = |m: nat| choose|i: int| 0 <= i < existing.len() && existing[i]@ == numbered_name(base, m);
    assert forall|m: nat| 1 <= m <= c implies 0 <= #[trigger] f(m) < existing.len() && existing[f(
        m,
    )]@ == numbered_name(base, m) by {
        assert(name_taken(existing, numbered_name(base, m)));
    }
    let s = Set::new(|i: int| 0 <= i < existing.len());
    let img = image(f, c);
    assert(img.subset_of(s));
    vstd::set_lib::lemma_int_range(0, existing.len() as int);
    assert(s =~= vstd::set_lib::set_int_range(0, existing.len() as int));
    vstd::set_lib::lemma_len_subset(img, s);
    lemma_injective_image_len(f, c, existing, base);
}

spec fn image(f: spec_fn(nat) -> int, c: nat) -> Set<int> {
    Set::new(|i: int| exists|m: nat| 1 <= m <= c && #[trigger] f(m) == i)
}

proof fn lemma_injective_image_len(f: spec_fn(nat) -> int, c: nat, existing: Seq<String>, base: Seq<char>)
    requires
        forall|m: nat| 1 <= m <= c ==> 0 <= #[trigger] f(m) < existing.len() && existing[f(
            m,
        )]@ == numbered_name(base, m),
    ensures
        image(f, c).len() == c,
        image(f, c).finite(),
    decreases c,
{
    let img = image(f, c);
    if c == 0 {
        assert(img =~= Set::<int>::empty());
    } else {
        lemma_injective_image_len(f, (c - 1) as nat, existing, base);
        let prev = image(f, (c - 1) as nat);
        assert(img =~= prev.insert(f(c)));
        assert(!prev.contains(f(c))) by {
            if prev.contains(f(c)) {
                let m = choose|m: nat| 1 <= m <= (c - 1) as nat && #[trigger] f(m) == f(c);
                lemma_numbered_names_distinct(base, m, c);
            }
        }
    }
}

// ── Timestamps ───────────────────────────────────────────────────────────────

pub open spec fn is_leap(y: nat) -> bool {
    y % 4 == 0 && (y % 100 != 0 || y % 400 == 0)
}

pub open spec fn year_len(y: nat) -> nat {
    if is_leap(y) {
        366
    } else {
        365
    }
}

/// The year that `days` days after January 1 of `y` fall in, and the day of that year.
pub open spec fn year_and_day(days: nat, y: nat) -> (nat, nat)
    decreases days,
{
    if days < year_len(y) {
        (y, days)
    } else {
        year_and_day((days - year_len(y)) as nat, y + 1)
    }
}

pub open spec fn month_len(leap: bool, m: nat) -> nat {
    if m == 1 {
        if leap {
            29
        } else {
            28
        }
    } else if m == 3 || m == 5 || m == 8 || m == 10 {
        30
    } else {
        31
    }
}

/// The month (0 = January) that day `d` of a year falls in, and the day of that month.
pub open spec fn month_and_day(d: nat, m: nat, leap: bool) -> (nat, nat)
    decreases 12 - m,
{
    if m < 11 && d >= month_len(leap, m) {
        month_and_day((d - month_len(leap, m)) as nat, m + 1, leap)
    } else {
        (m, d)
    }
}

/// `format!("{:02}", n)`.
pub open spec fn pad2(n: nat) -> Seq<char> {
    if n < 10 {
        seq!['0'] + dec(n)
    } else {
        dec(n)
    }
}

/// `format!("{:04}", n)`.
pub open spec fn pad4(n: nat) -> Seq<char> {
    if n < 10 {
        seq!['0', '0', '0'] + dec(n)
    } else if n < 100 {
        seq!['0', '0'] + dec(n)
    } else if n < 1000 {
        seq!['0'] + dec(n)
    } else {
        dec(n)
    }
}

/// The UTC time `secs` seconds after the Unix epoch, as `YYYY-MM-DDTHH:MM:SSZ`.
pub open spec fn iso8601(secs: nat) -> Seq<char> {
    let (year, day_of_year) = year_and_day(secs / 86400, 1970);
    let (month, day) = month_and_day(day_of_year, 0, is_leap(year));
    pad4(year) + "-"@ + pad2(month + 1) + "-"@ + pad2(day + 1) + "T"@ + pad2((secs / 3600) % 24)
        + ":"@ + pad2((secs / 60) % 60) + ":"@ + pad2(secs % 60) + "Z"@
}

fn push_pad2(out: &mut Vec<char>, n: u64)
    ensures
        final(out)@ == old(out)@ + pad2(n as nat),
{
    if n < 10 {
        out.push('0');
    }
    text::push_dec(out, n);
    assert(final(out)@ =~= old(out)@ + pad2(n as nat));
}

fn push_pad4(out: &mut Vec<char>, n: u64)
    ensures
        final(out)@ == old(out)@ + pad4(n as nat),
{
    if n < 10 {
        out.push('0');
        out.push('0');
        out.push('0');
    } else if n < 100 {
        out.push('0');
        out.push('0');
    } else if n < 1000 {
        out.push('0');
    }
    text::push_dec(out, n);
    assert(final(out)@ =~= old(out)@ + pad4(n as nat));
}

fn is_leap_exec(y: u64) -> (r: bool)
    ensures
        r == is_leap(y as nat),
{
    (y % 4 == 0) && (y % 100 != 0 || y % 400 == 0)
}

/// The creation and update stamp of presets, from seconds since the epoch.
pub fn iso8601_from_epoch_secs(secs: u64) -> (r: String)
    ensures
        r@ == iso8601(secs as nat),
{
    let sec = secs % 60;
    let min = (secs / 60) % 60;
    let hour = (secs / 3600) % 24;
    let mut remaining_days: u64 = secs / 86400;
    let mut year: u64 = 1970;
    loop
        invariant
            year >= 1970,
            year - 1970 <= secs / 86400 - remaining_days,
            remaining_days <= secs / 86400,
            year_and_day(remaining_days as nat, year as nat) == year_and_day(
                (secs / 86400) as nat,
                1970,
            ),
        ensures
            remaining_days < year_len(year as nat),
            year_and_day(remaining_days as nat, year as nat) == year_and_day(
                (secs / 86400) as nat,
                1970,
            ),
        decreases remaining_days,
    {
        let days_in_year: u64 = if is_leap_exec(year) {
            366
        } else {
            365
        };
        if remaining_days < days_in_year {
            break;
        }
        remaining_days = remaining_days - days_in_year;
        year = year + 1;
    }
    let ghost day0 = remaining_days;
    assert(year_and_day((secs / 86400) as nat, 1970) == (year as nat, day0 as nat));
    let leap = is_leap_exec(year);
    let mut month: u64 = 0;
    loop
        invariant
            month <= 11,
            remaining_days <= 366,
            month_and_day(remaining_days as nat, month as nat, leap) == month_and_day(
                day0 as nat,
                0,
                leap,
            ),
        ensures
            month <= 11,
            remaining_days <= 366,
            month_and_day(day0 as nat, 0, leap) == (month as nat, remaining_days as nat),
        decreases 11 - month,
    {
        let len: u64 = if month == 1 {
            if leap {
                29
            } else {
                28
            }
        } else if month == 3 || month == 5 || month == 8 || month == 10 {
            30
        } else {
            31
        };
        assert(len == month_len(leap, month as nat));
        if !(month < 11 && remaining_days >= len) {
            break;
        }
        remaining_days = remaining_days - len;
        month = month + 1;
    }
    let mut out: Vec<char> = Vec::new();
    push_pad4(&mut out, year);
    out.push('-');
    push_pad2(&mut out, month + 1);
    out.push('-');
    push_pad2(&mut out, remaining_days + 1);
    out.push('T');
    push_pad2(&mut out, hour);
    out.push(':');
    push_pad2(&mut out, min);
    out.push(':');
    push_pad2(&mut out, sec);
    out.push('Z');
    proof {
        reveal_strlit("-");
        reveal_strlit("T");
        reveal_strlit(":");
        reveal_strlit("Z");
    }
    assert(out@ =~= iso8601(secs as nat));
    text::string_of(&out)
}


// ── Building snapshots ───────────────────────────────────────────────────────

/// The snapshot of an installed template as `read_installed_templates_snapshot`
/// takes it: named after its input file, filed under the app its key names,
/// enabled, with the text of its template where that could be read.
pub fn installed_snapshot(
    key: &str,
    input_path: Option<String>,
    output_path: Option<String>,
    post_hook: Option<String>,
    content: Option<String>,
) -> (r: TemplateSnapshot)
    ensures
        r.name@ == snapshot_file_name(key@, opt_view(input_path)),
        opt_view(r.target_app) == Some(target_app_of_key(key@)),
        r.enabled,
        r.input_path == input_path,
        r.output_path == output_path,
        r.template_type is None,
        r.content == content,
        r.pre_hook is None,
        r.post_hook == post_hook,
{
    let name = match &input_path {
        Some(p) => snapshot_name(key, Some(p.as_str())),
        None => snapshot_name(key, None),
    };
    TemplateSnapshot {
        name,
        target_app: Some(target_app_of(key)),
        enabled: true,
        input_path,
        output_path,
        template_type: None,
        content,
        pre_hook: None,
        post_hook,
    }
}

/// The snapshot that a version 1 export gives an installed template's name:
/// no paths, content or hooks.
pub fn legacy_snapshot(name: String) -> (r: TemplateSnapshot)
    ensures
        r.name == name,
        opt_view(r.target_app) == Some(target_app_of_key(name@)),
        r.enabled,
        r.input_path is None && r.output_path is None && r.template_type is None,
        r.content is None && r.pre_hook is None && r.post_hook is None,
{
    let target_app = target_app_of(name.as_str());
    TemplateSnapshot {
        name,
        target_app: Some(target_app),
        enabled: true,
        input_path: None,
        output_path: None,
        template_type: None,
        content: None,
        pre_hook: None,
        post_hook: None,
    }
}

/// The wallpaper of a version 1 export: present where the export names a
/// file or embeds one.
pub fn legacy_wallpaper(base64: Option<String>, filename: Option<String>) -> (r: Option<WallpaperInfo>)
    ensures
        r is Some <==> (base64 is Some || filename is Some),
        r matches Some(w) ==> w.filename == filename && w.original_path is None && w.base64 == base64
            && w.sha256 is None && opt_view(w.mime_type) == match filename {
            Some(f) => Some(mime_type_of(f@)),
            None => None,
        },
{
    if base64.is_none() && filename.is_none() {
        return None;
    }
    let mime_type = match &filename {
        Some(f) => Some(mime_type_from_filename(f.as_str())),
        None => None,
    };
    Some(WallpaperInfo { filename, original_path: None, base64, mime_type, sha256: None })
}

// ── Importing and exporting ──────────────────────────────────────────────────

/// An export is written to a `.matugen` file.
pub fn check_export_path(output_path: &str) -> (r: Result<(), String>)
    ensures
        r is Ok <==> text::ends_with(output_path@, ".matugen"@),
        r matches Err(e) ==> e@ == "Output file must have .matugen extension"@,
{
    if text::ends_with_str(&text::chars_of(output_path), ".matugen") {
        Ok(())
    } else {
        Err(String::from_str("Output file must have .matugen extension"))
    }
}

/// An import reads a `.matugen` file.
pub fn check_import_path(file_path: &str) -> (r: Result<(), String>)
    ensures
        r is Ok <==> text::ends_with(file_path@, ".matugen"@),
        r matches Err(e) ==> e@ == "File must have .matugen extension"@,
{
    if text::ends_with_str(&text::chars_of(file_path), ".matugen") {
        Ok(())
    } else {
        Err(String::from_str("File must have .matugen extension"))
    }
}

/// The warning for a template restored from an import but not activated.
pub fn restored_template_warning(name: &str) -> (r: String)
    ensures
        r@ == "Template '"@ + name@
            + "' was restored but not activated. Review and install it from the Apps tab to choose its output path and optional hook."@,
{
    let mut out = text::chars_of("Template '");
    text::push_str(&mut out, name);
    text::push_str(
        &mut out,
        "' was restored but not activated. Review and install it from the Apps tab to choose its output path and optional hook.",
    );
    text::string_of(&out)
}

/// The warning for an imported wallpaper path that is not on disk.
pub fn missing_wallpaper_warning(path_text: &str) -> (r: String)
    ensures
        r@ == "Wallpaper '"@ + path_text@ + "' not found on disk. Re-select it manually."@,
{
    let mut out = text::chars_of("Wallpaper '");
    text::push_str(&mut out, path_text);
    text::push_str(&mut out, "' not found on disk. Re-select it manually.");
    text::string_of(&out)
}

/// The file name an embedded wallpaper is saved under: its own, checked, or
/// `wallpaper.png`.
pub fn imported_wallpaper_name(filename: Option<&str>) -> (r: Result<String, String>)
    ensures
        match r {
            Ok(n) => imported_filename_result(match filename {
                Some(f) => f@,
                None => "wallpaper.png"@,
            }, "wallpaper"@) == Ok::<Seq<char>, Seq<char>>(n@),
            Err(e) => imported_filename_result(match filename {
                Some(f) => f@,
                None => "wallpaper.png"@,
            }, "wallpaper"@) == Err::<Seq<char>, Seq<char>>(e@),
        },
{
    let raw = match filename {
        Some(f) => f,
        None => "wallpaper.png",
    };
    validate_imported_filename(raw, "wallpaper")
}

// ── Embedded wallpapers ──────────────────────────────────────────────────────

/// The standard (padded) base64 text of some bytes.
pub uninterp spec fn base64_encoded(bytes: Seq<u8>) -> Seq<char>;

/// The bytes that a standard base64 text decodes to, if it is valid.
pub uninterp spec fn base64_decoded(text: Seq<char>) -> Option<Seq<u8>>;

/// The text of the error that decoding an invalid base64 text gives.
pub uninterp spec fn base64_decode_error(text: Seq<char>) -> Seq<char>;

/// The SHA-256 digest of some bytes, as lower-case hexadecimal.
pub uninterp spec fn sha256_hex(bytes: Seq<u8>) -> Seq<char>;

/// `base64::Engine::encode` with the standard engine; its result is named.
#[verifier::external_body]
fn encode_base64(bytes: &[u8]) -> (r: String)
    ensures
        r@ == base64_encoded(bytes@),
{
    base64::Engine::encode(&base64::engine::general_purpose::STANDARD, bytes)
}

/// `base64::Engine::decode` with the standard engine: the decoded bytes, or
/// the error's text; both are named.
#[verifier::external_body]
fn decode_base64(text: &str) -> (r: Result<Vec<u8>, String>)
    ensures
        r matches Ok(v) ==> base64_decoded(text@) == Some(v@),
        r matches Err(e) ==> base64_decoded(text@) is None && e@ == base64_decode_error(text@),
{
    base64::Engine::decode(&base64::engine::general_purpose::STANDARD, text).map_err(|e| e.to_string())
}

/// `sha2::Sha256::digest`, written as lower-case hexadecimal with `{:x}`;
/// its result is named.
#[verifier::external_body]
fn sha256_hex_of(bytes: &[u8]) -> (r: String)
    ensures
        r@ == sha256_hex(bytes@),
{
    format!("{:x}", <sha2::Sha256 as sha2::Digest>::digest(bytes))
}

fn clone_opt(o: &Option<String>) -> (r: Option<String>)
    ensures
        opt_view(r) == opt_view(*o),
{
    match o {
        Some(s) => Some(s.clone()),
        None => None,
    }
}

/// The wallpaper entry of an export, once the wallpaper's bytes were read:
/// the file's own name (else the saved one), the MIME type by that name
/// (else the saved one), the bytes as base64 and their SHA-256 digest.
pub fn exported_wallpaper(wp: &WallpaperInfo, file_name: Option<String>, data: &[u8]) -> (r: WallpaperInfo)
    ensures
        opt_view(r.filename) == (match file_name {
            Some(f) => Some(f@),
            None => opt_view(wp.filename),
        }),
        opt_view(r.mime_type) == (match opt_view(r.filename) {
            Some(f) => Some(mime_type_of(f)),
            None => opt_view(wp.mime_type),
        }),
        opt_view(r.original_path) == opt_view(wp.original_path),
        opt_view(r.base64) == Some(base64_encoded(data@)),
        opt_view(r.sha256) == Some(sha256_hex(data@)),
{
    let hash = sha256_hex_of(data);
    let encoded = encode_base64(data);
    let filename = match file_name {
        Some(f) => Some(f),
        None => clone_opt(&wp.filename),
    };
    let mime_type = match &filename {
        Some(f) => Some(mime_type_from_filename(f.as_str())),
        None => clone_opt(&wp.mime_type),
    };
    WallpaperInfo {
        filename,
        original_path: clone_opt(&wp.original_path),
        base64: Some(encoded),
        mime_type,
        sha256: Some(hash),
    }
}

/// What an import does with an embedded wallpaper.
#[derive(Debug)]
pub enum WallpaperImportAction {
    /// Write these bytes to the shared file; once written, the preset's
    /// wallpaper path becomes `new_original_path` where that is given.
    Write { bytes: Vec<u8>, new_original_path: Option<String> },
    /// The wallpaper cannot be restored: this warning is reported.
    Warn(String),
}

/// The import step for an embedded wallpaper, to be saved at `dest`: the
/// decoded bytes are written, and the saved path replaces the preset's own
/// where that is missing on disk; text that does not decode gives a warning.
pub fn import_wallpaper_step(b64: &str, original_exists: bool, dest: &str) -> (r: WallpaperImportAction)
    ensures
        match base64_decoded(b64@) {
            Some(bytes) => r matches WallpaperImportAction::Write { bytes: b, new_original_path: p }
                && b@ == bytes && opt_view(p) == (if original_exists {
                    None
                } else {
                    Some(dest@)
                }),
            None => r matches WallpaperImportAction::Warn(w) && w@ == "Could not decode wallpaper: "@
                + base64_decode_error(b64@),
        },
{
    match decode_base64(b64) {
        Ok(bytes) => {
            let new_original_path = if original_exists {
                None
            } else {
                Some(String::from_str(dest))
            };
            WallpaperImportAction::Write { bytes, new_original_path }
        },
        Err(e) => {
            let mut out = text::chars_of("Could not decode wallpaper: ");
            text::push_str(&mut out, e.as_str());
            WallpaperImportAction::Warn(text::string_of(&out))
        },
    }
}

/// The warning for a preset wallpaper with no embedded copy: given where
/// its saved path is not on disk.
pub fn missing_original_warning(original_path: Option<&str>, exists: bool) -> (r: Option<String>)
    ensures
        match original_path {
            Some(p) => if exists {
                r is None
            } else {
                r matches Some(w) && w@ == "Wallpaper '"@ + p@ + "' not found on disk. Re-select it manually."@
            },
            None => r is None,
        },
{
    match original_path {
        Some(p) => if exists {
            None
        } else {
            Some(missing_wallpaper_warning(p))
        },
        None => None,
    }
}

} // verus!
