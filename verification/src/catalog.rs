//! The template catalog and the matugen configuration entries of installed
//! templates: catalog names and categories, the portable paths that catalog
//! entries use, and the text written to `config.toml`.
use vstd::prelude::*;
use crate::context::opt_view;
use crate::path;
use crate::template_meta::TemplateInfo;
use crate::text;
use crate::text::{free_of, lower_char, split_char};

verus! {

/// An application of the catalog, with its template variants.
#[derive(Debug)]
pub struct TemplateCatalogApp {
    pub id: String,
    pub name: String,
    pub category: String,
    pub variants: Vec<TemplateCatalogVariant>,
}

#[derive(Debug)]
pub struct TemplateCatalogVariant {
    pub id: String,
    pub name: String,
    pub description: Option<String>,
    pub source: TemplateSource,
    pub targets: Vec<TemplateTarget>,
    pub template: TemplateInfo,
}

/// Where a template comes from and under which terms.
#[derive(Debug)]
pub struct TemplateSource {
    pub kind: String,
    pub name: String,
    pub repository: Option<String>,
    pub author: Option<String>,
    pub license: Option<String>,
    pub license_status: Option<String>,
    pub source_path: Option<String>,
    pub upstream_commit: Option<String>,
    pub version: Option<String>,
    pub attribution: Option<String>,
}

/// One place a template variant can be installed to.
#[derive(Debug)]
pub struct TemplateTarget {
    pub id: String,
    pub label: String,
    pub install_type: String,
    pub input_path: String,
    pub output_path: String,
    pub detected: bool,
}

/// An installed template as `config.toml` lists it.
#[derive(Debug)]
pub struct InstalledTemplateEntry {
    pub key: String,
    pub input_path: String,
    pub output_path: String,
}

/// Where Heroic Games Launcher keeps its themes.
#[derive(Debug, Clone, PartialEq, Eq)]
pub struct HeroicDetectionResult {
    pub native_detected: bool,
    pub flatpak_detected: bool,
    pub native_path: String,
    pub flatpak_path: String,
    pub native_themes_dir: String,
    pub flatpak_themes_dir: String,
}

/// The user folders that catalog paths are written against.
#[derive(Debug)]
pub struct CatalogPaths {
    pub home: String,
    pub config: String,
    pub data: String,
    pub cache: String,
    pub state: String,
}

// ── Names ────────────────────────────────────────────────────────────────────

/// One character of `catalog_slug`: letters and digits in lower case, one
/// `-` for each run of anything else after the first letter or digit.
pub open spec fn slug_step(slug: Seq<char>, c: char) -> Seq<char> {
    if text::is_ascii_alnum(c) {
        slug.push(lower_char(c))
    } else if slug.len() > 0 && slug.last() != '-' {
        slug.push('-')
    } else {
        slug
    }
}

pub open spec fn slug_fold(s: Seq<char>) -> Seq<char>
    decreases s.len(),
{
    if s.len() == 0 {
        Seq::empty()
    } else {
        slug_step(slug_fold(s.drop_last()), s.last())
    }
}

/// `catalog_slug`: the folded text without trailing `-`.
pub open spec fn catalog_slug_of(s: Seq<char>) -> Seq<char> {
    crate::kde::strip_end_char(slug_fold(s), '-')
}

pub fn catalog_slug(value: &str) -> (r: String)
    ensures
        r@ == catalog_slug_of(value@),
{
    let v = text::chars_of(value);
    let mut slug: Vec<char> = Vec::new();
    let mut i: usize = 0;
    while i < v.len()
        invariant
            i <= v.len(),
            v@ == value@,
            slug@ == slug_fold(v@.take(i as int)),
        decreases v.len() - i,
    {
        assert(v@.take(i + 1).drop_last() =~= v@.take(i as int));
        let c = v[i];
        if ('a' <= c && c <= 'z') || ('A' <= c && c <= 'Z') || ('0' <= c && c <= '9') {
            let l = if 'A' <= c && c <= 'Z' {
                ((c as u8) + 32) as char
            } else {
                c
            };
            assert(l == lower_char(c)) by {
                if 'A' <= c && c <= 'Z' {
                    assert(((c as u8) + 32) as char == ((c as u32) + 32) as char);
                }
            }
            slug.push(l);
        } else if slug.len() > 0 && slug[slug.len() - 1] != '-' {
            slug.push('-');
        }
        i = i + 1;
    }
    assert(v@.take(v.len() as int) =~= v@);
    let mut j: usize = slug.len();
    assert(slug@.take(j as int) =~= slug@);
    while j > 0 && slug[j - 1] == '-'
        invariant
            j <= slug.len(),
            crate::kde::strip_end_char(slug@.take(j as int), '-') == crate::kde::strip_end_char(slug@, '-'),
        decreases j,
    {
        assert(slug@.take(j as int).drop_last() =~= slug@.take(j - 1));
        j = j - 1;
    }
    let out = text::slice_of(&slug, 0, j);
    assert(out@ =~= slug@.take(j as int));
    text::string_of(&out)
}

/// `normalized_category`: the catalog group of an application.
pub open spec fn normalized_category_of(category: Seq<char>, app: Seq<char>) -> Seq<char> {
    if app == "Discord"@ || app == "Telegram"@ {
        "Communication"@
    } else if app == "Spotify"@ || app == "OBS Studio"@ {
        "Media"@
    } else if app == "Heroic Games Launcher"@ || app == "Steam"@ || app == "PrismLauncher"@ {
        "Gaming"@
    } else if app == "Ghostwriter"@ {
        "Productivity"@
    } else if app == "Btop"@ {
        "System"@
    } else if category == "KDE Plasma"@ {
        "Desktop"@
    } else if category == "Terminals"@ {
        "Terminals"@
    } else if category == "Shell Tools"@ || category == "Editors"@ {
        "Development"@
    } else if category == "Browsers"@ {
        "Browsers"@
    } else if category == "Apps"@ {
        "Utilities"@
    } else {
        category
    }
}

pub fn normalized_category<'a>(category: &'a str, app_name: &str) -> (r: &'a str)
    ensures
        r@ == normalized_category_of(category@, app_name@),
{
    let is = |a: &str, b: &str| -> (e: bool)
        ensures
            e == (a@ == b@),
        { crate::context::str_eq(a, b) };
    if is(app_name, "Discord") || is(app_name, "Telegram") {
        "Communication"
    } else if is(app_name, "Spotify") || is(app_name, "OBS Studio") {
        "Media"
    } else if is(app_name, "Heroic Games Launcher") || is(app_name, "Steam") || is(
        app_name,
        "PrismLauncher",
    ) {
        "Gaming"
    } else if is(app_name, "Ghostwriter") {
        "Productivity"
    } else if is(app_name, "Btop") {
        "System"
    } else if is(category, "KDE Plasma") {
        "Desktop"
    } else if is(category, "Terminals") {
        "Terminals"
    } else if is(category, "Shell Tools") || is(category, "Editors") {
        "Development"
    } else if is(category, "Browsers") {
        "Browsers"
    } else if is(category, "Apps") {
        "Utilities"
    } else {
        category
    }
}

/// The source of a template that ships with the application.
pub open spec fn bundled_source_path(relative_path: Seq<char>) -> Seq<char> {
    if text::starts_with(relative_path, "websites/"@) {
        relative_path
    } else {
        "templates/"@ + relative_path
    }
}

pub fn bundled_source(relative_path: &str) -> (r: TemplateSource)
    ensures
        r.kind@ == "official"@,
        r.name@ == "matugen-themes"@,
        opt_view(r.repository) == Some("https://github.com/InioX/matugen-themes"@),
        r.author is None,
        opt_view(r.license) == Some("MIT"@),
        opt_view(r.license_status) == Some("repository-declared"@),
        opt_view(r.source_path) == Some(bundled_source_path(relative_path@)),
        r.upstream_commit is None,
        r.version is None,
        r.attribution is None,
{
    let rel = text::chars_of(relative_path);
    let source_path = if text::starts_with_str(&rel, "websites/") {
        String::from_str(relative_path)
    } else {
        let mut p = text::chars_of("templates/");
        text::push_all(&mut p, &rel);
        text::string_of(&p)
    };
    TemplateSource {
        kind: String::from_str("official"),
        name: String::from_str("matugen-themes"),
        repository: Some(String::from_str("https://github.com/InioX/matugen-themes")),
        author: None,
        license: Some(String::from_str("MIT")),
        license_status: Some(String::from_str("repository-declared")),
        source_path: Some(source_path),
        upstream_commit: None,
        version: None,
        attribution: None,
    }
}


// ── Catalog paths ────────────────────────────────────────────────────────────

pub struct PathsView {
    pub home: Seq<char>,
    pub config: Seq<char>,
    pub data: Seq<char>,
    pub cache: Seq<char>,
    pub state: Seq<char>,
}

impl View for CatalogPaths {
    type V = PathsView;

    open spec fn view(&self) -> PathsView {
        PathsView {
            home: self.home@,
            config: self.config@,
            data: self.data@,
            cache: self.cache@,
            state: self.state@,
        }
    }
}

/// A path below a base may not leave it: it is not empty, not absolute, and
/// no `/`-separated part is `.` or `..`.
pub open spec fn escapes(rest: Seq<char>) -> bool {
    ||| rest.len() == 0
    ||| rest[0] == '/'
    ||| exists|i: int|
        0 <= i < split_char(rest, '/').len() && (#[trigger] split_char(rest, '/')[i] == seq!['.']
            || split_char(rest, '/')[i] == seq!['.', '.'])
}

/// The prefixes of catalog paths and the folder each stands for, in the order
/// they are tried.
pub open spec fn path_prefixes(p: PathsView) -> Seq<(Seq<char>, Seq<char>)> {
    seq![
        ("$XDG_CONFIG_HOME/"@, p.config),
        ("$XDG_DATA_HOME/"@, p.data),
        ("$XDG_CACHE_HOME/"@, p.cache),
        ("$XDG_STATE_HOME/"@, p.state),
        ("$HOME/"@, p.home),
        ("~/"@, p.home),
    ]
}

pub open spec fn resolve_from(prefixes: Seq<(Seq<char>, Seq<char>)>, expr: Seq<char>) -> Result<Seq<char>, Seq<char>>
    decreases prefixes.len(),
{
    if prefixes.len() == 0 {
        Err("Unsupported catalog path: "@ + expr)
    } else if text::starts_with(expr, prefixes[0].0) {
        let rest = expr.skip(prefixes[0].0.len() as int);
        if escapes(rest) {
            Err("Invalid catalog path: "@ + expr)
        } else {
            Ok(path::join(prefixes[0].1, rest))
        }
    } else {
        resolve_from(prefixes.drop_first(), expr)
    }
}

/// `CatalogPaths::resolve`: a catalog path under one of the user folders.
pub open spec fn resolve_of(p: PathsView, expr: Seq<char>) -> Result<Seq<char>, Seq<char>> {
    resolve_from(path_prefixes(p), expr)
}

fn escapes_exec(rest: &Vec<char>) -> (r: bool)
    ensures
        r == escapes(rest@),
{
    if rest.len() == 0 || rest[0] == '/' {
        return true;
    }
    let parts = text::split_char_exec(rest, '/');
    let ghost pv = split_char(rest@, '/');
    let mut i: usize = 0;
    while i < parts.len()
        invariant
            i <= parts.len(),
            text::views(parts@) == pv,
            pv == split_char(rest@, '/'),
            forall|j: int| 0 <= j < i ==> !(#[trigger] pv[j] == seq!['.'] || pv[j] == seq!['.', '.']),
        decreases parts.len() - i,
    {
        let c = &parts[i];
        assert(c@ == pv[i as int]);
        let dot = c.len() == 1 && c[0] == '.';
        let dotdot = c.len() == 2 && c[0] == '.' && c[1] == '.';
        proof {
            if dot {
                assert(c@ =~= seq!['.']);
            }
            if dotdot {
                assert(c@ =~= seq!['.', '.']);
            }
            if c@ == seq!['.'] {
                assert(c@[0] == '.');
            }
            if c@ == seq!['.', '.'] {
                assert(c@[0] == '.' && c@[1] == '.');
            }
        }
        if dot || dotdot {
            return true;
        }
        i = i + 1;
    }
    false
}

impl CatalogPaths {
    /// `CatalogPaths::system`, where `xdg_state_home` is the environment's
    /// `XDG_STATE_HOME` (used only when absolute).
    pub fn system(xdg_state_home: Option<&str>) -> (r: Result<CatalogPaths, String>)
        ensures
            r matches Ok(p) ==> p.state@ == (match xdg_state_home {
                Some(s) => if s@.len() > 0 && s@[0] == '/' {
                    s@
                } else {
                    path::join(p.home@, ".local/state"@)
                },
                None => path::join(p.home@, ".local/state"@),
            }),
            r matches Err(e) ==> e@ == "Could not resolve home directory"@ || e@
                == "Could not resolve config directory"@ || e@ == "Could not resolve data directory"@
                || e@ == "Could not resolve cache directory"@,
    {
        let home = match crate::xdg::home_dir() {
            Some(h) => h,
            None => {
                return Err(String::from_str("Could not resolve home directory"));
            },
        };
        let state = match xdg_state_home {
            Some(s) => {
                let sv = text::chars_of(s);
                if sv.len() > 0 && sv[0] == '/' {
                    String::from_str(s)
                } else {
                    path::join_exec(home.as_str(), ".local/state")
                }
            },
            None => path::join_exec(home.as_str(), ".local/state"),
        };
        let config = match crate::xdg::config_dir() {
            Some(c) => c,
            None => {
                return Err(String::from_str("Could not resolve config directory"));
            },
        };
        let data = match crate::xdg::data_dir() {
            Some(d) => d,
            None => {
                return Err(String::from_str("Could not resolve data directory"));
            },
        };
        let cache = match crate::xdg::cache_dir() {
            Some(c) => c,
            None => {
                return Err(String::from_str("Could not resolve cache directory"));
            },
        };
        Ok(CatalogPaths { home, config, data, cache, state })
    }

    /// `CatalogPaths::resolve`.
    pub fn resolve(&self, expression: &str) -> (r: Result<String, String>)
        ensures
            r matches Ok(p) ==> resolve_of(self@, expression@) == Ok::<Seq<char>, Seq<char>>(p@),
            r matches Err(e) ==> resolve_of(self@, expression@) == Err::<Seq<char>, Seq<char>>(e@),
    {
        let prefixes: Vec<(&str, &String)> = vec![
            ("$XDG_CONFIG_HOME/", &self.config),
            ("$XDG_DATA_HOME/", &self.data),
            ("$XDG_CACHE_HOME/", &self.cache),
            ("$XDG_STATE_HOME/", &self.state),
            ("$HOME/", &self.home),
            ("~/", &self.home),
        ];
        let ghost pv = prefixes@.map_values(|x: (&str, &String)| (x.0@, x.1@));
        assert(pv =~= path_prefixes(self@));
        let e = text::chars_of(expression);
        let mut i: usize = 0;
        assert(pv.skip(0) =~= pv);
        while i < prefixes.len()
            invariant
                i <= prefixes.len(),
                e@ == expression@,
                pv == prefixes@.map_values(|x: (&str, &String)| (x.0@, x.1@)),
                resolve_of(self@, expression@) == resolve_from(pv.skip(i as int), expression@),
                pv == path_prefixes(self@),
            decreases prefixes.len() - i,
        {
            let (prefix, base) = prefixes[i];
            assert(pv.skip(i as int)[0] == (prefix@, base@));
            if text::starts_with_str(&e, prefix) {
                let pl = text::chars_of(prefix).len();
                let rest = text::slice_of(&e, pl, e.len());
                assert(rest@ =~= expression@.skip(prefix@.len() as int));
                if escapes_exec(&rest) {
                    let mut m = text::chars_of("Invalid catalog path: ");
                    text::push_all(&mut m, &e);
                    return Err(text::string_of(&m));
                }
                return Ok(path::join_exec(base.as_str(), text::string_of(&rest).as_str()));
            }
            assert(pv.skip(i as int).drop_first() =~= pv.skip(i + 1));
            i = i + 1;
        }
        let mut m = text::chars_of("Unsupported catalog path: ");
        text::push_all(&mut m, &e);
        Err(text::string_of(&m))
    }
}

/// `resolve_catalog_legacy_path`: a `~/`-relative default output under the
/// matching user folder; anything else as it is.
pub open spec fn legacy_path_of(p: PathsView, path: Seq<char>) -> Seq<char> {
    if text::starts_with(path, "~/.config/"@) {
        path::join(p.config, path.skip(10))
    } else if text::starts_with(path, "~/.local/share/"@) {
        path::join(p.data, path.skip(15))
    } else if text::starts_with(path, "~/.cache/"@) {
        path::join(p.cache, path.skip(9))
    } else if text::starts_with(path, "~/"@) {
        path::join(p.home, path.skip(2))
    } else {
        path
    }
}

pub fn resolve_catalog_legacy_path(paths: &CatalogPaths, path_text: &str) -> (r: Result<String, String>)
    ensures
        r matches Ok(p) && p@ == legacy_path_of(paths@, path_text@),
{
    proof {
        reveal_strlit("~/.config/");
        reveal_strlit("~/.local/share/");
        reveal_strlit("~/.cache/");
        reveal_strlit("~/");
    }
    let v = text::chars_of(path_text);
    if text::starts_with_str(&v, "~/.config/") {
        let rest = text::slice_of(&v, 10, v.len());
        assert(rest@ =~= path_text@.skip(10));
        Ok(path::join_exec(paths.config.as_str(), text::string_of(&rest).as_str()))
    } else if text::starts_with_str(&v, "~/.local/share/") {
        let rest = text::slice_of(&v, 15, v.len());
        assert(rest@ =~= path_text@.skip(15));
        Ok(path::join_exec(paths.data.as_str(), text::string_of(&rest).as_str()))
    } else if text::starts_with_str(&v, "~/.cache/") {
        let rest = text::slice_of(&v, 9, v.len());
        assert(rest@ =~= path_text@.skip(9));
        Ok(path::join_exec(paths.cache.as_str(), text::string_of(&rest).as_str()))
    } else if text::starts_with_str(&v, "~/") {
        let rest = text::slice_of(&v, 2, v.len());
        assert(rest@ =~= path_text@.skip(2));
        Ok(path::join_exec(paths.home.as_str(), text::string_of(&rest).as_str()))
    } else {
        Ok(String::from_str(path_text))
    }
}

// ── Heroic Games Launcher ────────────────────────────────────────────────────

/// `Path::display` of the components that remain after `strip_prefix`.
pub open spec fn components_text(cs: Seq<Seq<char>>) -> Seq<char> {
    if cs.len() > 0 && cs[0] == seq!['/'] {
        seq!['/'] + text::join(cs.drop_first(), seq!['/'])
    } else {
        text::join(cs, seq!['/'])
    }
}

/// `config_dir.strip_prefix(home_dir)`, displayed.
pub open spec fn stripped_text(p: Seq<char>, base: Seq<char>) -> Option<Seq<char>> {
    if path::path_starts_with(p, base) {
        Some(components_text(path::components(p).skip(path::components(base).len() as int)))
    } else {
        None
    }
}

pub open spec fn native_themes_dir_of(config_dir: Seq<char>, home_dir: Seq<char>) -> Seq<char> {
    match stripped_text(config_dir, home_dir) {
        Some(rel) => "~/"@ + rel + "/heroic/themes"@,
        None => config_dir + "/heroic/themes"@,
    }
}

fn join_components(cs: &Vec<Vec<char>>, from: usize) -> (r: Vec<char>)
    requires
        from <= cs.len(),
    ensures
        r@ == text::join(text::views(cs@).skip(from as int), seq!['/']),
{
    let ghost vs = text::views(cs@).skip(from as int);
    let mut out: Vec<char> = Vec::new();
    let mut i: usize = from;
    assert(vs.take(0) =~= Seq::<Seq<char>>::empty());
    while i < cs.len()
        invariant
            from <= i <= cs.len(),
            vs == text::views(cs@).skip(from as int),
            out@ == text::join(vs.take(i - from), seq!['/']),
        decreases cs.len() - i,
    {
        let ghost before = out@;
        assert(vs.take(i + 1 - from).drop_last() =~= vs.take(i - from));
        assert(vs.take(i + 1 - from).last() == cs@[i as int]@);
        if i > from {
            out.push('/');
        }
        text::push_all(&mut out, &cs[i]);
        proof {
            if i > from {
                assert(out@ =~= before + seq!['/'] + cs@[i as int]@);
            } else {
                assert(vs.take(1) =~= seq![cs@[i as int]@]);
                assert(out@ =~= cs@[i as int]@);
            }
        }
        i = i + 1;
    }
    assert(vs.take(cs.len() - from) =~= vs);
    out
}

/// `detect_heroic_installation_in`, with whether Heroic's native config
/// folder and its Flatpak folder exist.
pub fn detect_heroic_installation_in(
    config_dir: &str,
    home_dir: &str,
    native_is_dir: bool,
    flatpak_is_dir: bool,
) -> (r: HeroicDetectionResult)
    ensures
        r.native_detected == native_is_dir,
        r.flatpak_detected == flatpak_is_dir,
        r.native_themes_dir@ == native_themes_dir_of(config_dir@, home_dir@),
        r.native_path@ == native_themes_dir_of(config_dir@, home_dir@) + "/matugen.css"@,
        r.flatpak_path@ == "~/.var/app/com.heroicgameslauncher.hgl/config/heroic/themes/matugen.css"@,
        r.flatpak_themes_dir@ == "~/.var/app/com.heroicgameslauncher.hgl/config/heroic/themes"@,
{
    let mut dir: Vec<char> = Vec::new();
    if path::path_starts_with_exec(config_dir, home_dir) {
        let pc = path::components_exec(&text::chars_of(config_dir));
        let bc = path::components_exec(&text::chars_of(home_dir));
        let ghost rest = text::views(pc@).skip(bc.len() as int);
        let root_first = bc.len() < pc.len() && pc[bc.len()].len() == 1 && pc[bc.len()][0] == '/';
        let rel = if root_first {
            let mut t: Vec<char> = vec!['/'];
            let tail = join_components(&pc, bc.len() + 1);
            text::push_all(&mut t, &tail);
            proof {
                assert(pc@[bc.len() as int]@ =~= seq!['/']);
                assert(rest.drop_first() =~= text::views(pc@).skip(bc.len() + 1));
            }
            t
        } else {
            proof {
                if rest.len() > 0 && rest[0] == seq!['/'] {
                    assert(rest[0] == pc@[bc.len() as int]@);
                    assert(pc@[bc.len() as int]@[0] == '/');
                }
            }
            join_components(&pc, bc.len())
        };
        assert(rel@ == components_text(rest));
        text::push_str(&mut dir, "~/");
        text::push_all(&mut dir, &rel);
        text::push_str(&mut dir, "/heroic/themes");
    } else {
        text::push_str(&mut dir, config_dir);
        text::push_str(&mut dir, "/heroic/themes");
    }
    assert(dir@ =~= native_themes_dir_of(config_dir@, home_dir@));
    let native_themes_dir = text::string_of(&dir);
    let mut np = text::slice_of(&dir, 0, dir.len());
    text::push_str(&mut np, "/matugen.css");
    assert(np@ =~= native_themes_dir_of(config_dir@, home_dir@) + "/matugen.css"@);
    HeroicDetectionResult {
        native_detected: native_is_dir,
        flatpak_detected: flatpak_is_dir,
        native_path: text::string_of(&np),
        flatpak_path: String::from_str("~/.var/app/com.heroicgameslauncher.hgl/config/heroic/themes/matugen.css"),
        native_themes_dir,
        flatpak_themes_dir: String::from_str("~/.var/app/com.heroicgameslauncher.hgl/config/heroic/themes"),
    }
}


// ── Installed template names and config text ─────────────────────────────────

/// `safe_template_name`: a plain file name, without `..`.
pub open spec fn safe_template_name_of(name: Seq<char>) -> bool {
    path::file_name(name) == Some(name) && !text::contains(name, ".."@) && name.len() > 0
}

pub fn safe_template_name(name: &str) -> (r: Result<&str, String>)
    ensures
        r matches Ok(n) ==> safe_template_name_of(name@) && n@ == name@,
        r matches Err(e) ==> !safe_template_name_of(name@) && e@ == "Invalid template name"@,
{
    let v = text::chars_of(name);
    let ok = match path::file_name_exec(name) {
        Some(f) => crate::context::str_eq(f.as_str(), name) && !text::contains_str(&v, "..") && v.len()
            > 0,
        None => false,
    };
    if ok {
        Ok(name)
    } else {
        Err(String::from_str("Invalid template name"))
    }
}

/// `sanitize_template_key`: every character other than an ASCII letter or
/// digit becomes `_`.
pub open spec fn sanitized_key(name: Seq<char>) -> Seq<char> {
    name.map_values(|c: char| if text::is_ascii_alnum(c) {
        c
    } else {
        '_'
    })
}

pub fn sanitize_template_key(template_name: &str) -> (r: String)
    ensures
        r@ == sanitized_key(template_name@),
{
    let v = text::chars_of(template_name);
    let mut out: Vec<char> = Vec::new();
    let mut i: usize = 0;
    while i < v.len()
        invariant
            i <= v.len(),
            v@ == template_name@,
            out@ == sanitized_key(v@.take(i as int)),
        decreases v.len() - i,
    {
        let c = v[i];
        if ('a' <= c && c <= 'z') || ('A' <= c && c <= 'Z') || ('0' <= c && c <= '9') {
            out.push(c);
        } else {
            out.push('_');
        }
        i = i + 1;
        assert(out@ =~= sanitized_key(v@.take(i as int)));
    }
    assert(v@.take(v.len() as int) =~= v@);
    text::string_of(&out)
}

/// `installed_key`: a key that already names a variant (`app__target`) is
/// kept; any other is sanitized.
pub open spec fn installed_key_of(name: Seq<char>) -> Seq<char> {
    if text::contains(name, "__"@) {
        name
    } else {
        sanitized_key(name)
    }
}

pub fn installed_key(name: &str) -> (r: String)
    ensures
        r@ == installed_key_of(name@),
{
    if text::contains_str(&text::chars_of(name), "__") {
        String::from_str(name)
    } else {
        sanitize_template_key(name)
    }
}

/// The text of one character inside a TOML basic string.
pub open spec fn toml_escaped_char(c: char) -> Seq<char> {
    if c == '\r' {
        Seq::empty()
    } else if c == '\\' {
        seq!['\\', '\\']
    } else if c == '"' {
        seq!['\\', '"']
    } else if c == '\n' {
        seq!['\\', 'n']
    } else {
        seq![c]
    }
}

/// `escape_toml_string`: backslashes, quotes and line feeds escaped, carriage
/// returns dropped.
pub open spec fn toml_escaped(s: Seq<char>) -> Seq<char>
    decreases s.len(),
{
    if s.len() == 0 {
        Seq::empty()
    } else {
        toml_escaped(s.drop_last()) + toml_escaped_char(s.last())
    }
}

pub fn escape_toml_string(s: &str) -> (r: String)
    ensures
        r@ == toml_escaped(s@),
{
    let v = text::chars_of(s);
    let mut out: Vec<char> = Vec::new();
    let mut i: usize = 0;
    while i < v.len()
        invariant
            i <= v.len(),
            v@ == s@,
            out@ == toml_escaped(v@.take(i as int)),
        decreases v.len() - i,
    {
        assert(v@.take(i + 1).drop_last() =~= v@.take(i as int));
        let c = v[i];
        if c == '\r' {
        } else if c == '\\' {
            out.push('\\');
            out.push('\\');
        } else if c == '"' {
            out.push('\\');
            out.push('"');
        } else if c == '\n' {
            out.push('\\');
            out.push('n');
        } else {
            out.push(c);
        }
        i = i + 1;
        assert(out@ =~= toml_escaped(v@.take(i as int)));
    }
    assert(v@.take(v.len() as int) =~= v@);
    text::string_of(&out)
}

/// `validate_hex`: a trimmed `#RRGGBB` in upper case.
pub open spec fn validate_hex_of(hex: Seq<char>) -> Result<Seq<char>, Seq<char>> {
    if crate::settings::valid_override_color(text::trim(hex)) {
        Ok(text::upper(text::trim(hex)))
    } else {
        Err("Color must use #RRGGBB format"@)
    }
}

pub fn validate_hex(hex: &str) -> (r: Result<String, String>)
    ensures
        r matches Ok(v) ==> validate_hex_of(hex@) == Ok::<Seq<char>, Seq<char>>(v@),
        r matches Err(e) ==> validate_hex_of(hex@) == Err::<Seq<char>, Seq<char>>(e@),
{
    let t = text::trim_exec(&text::chars_of(hex));
    let ts = text::string_of(&t);
    if crate::settings::valid_override_color_exec(ts.as_str()) {
        Ok(text::string_of(&text::upper_exec(&t)))
    } else {
        Err(String::from_str("Color must use #RRGGBB format"))
    }
}

/// `portable_output`: a catalog path resolved; any other path as it is.
pub open spec fn portable_output_of(p: PathsView, out: Seq<char>) -> Result<Seq<char>, Seq<char>> {
    if text::starts_with(out, "$XDG_"@) || text::starts_with(out, "$HOME/"@) || text::starts_with(
        out,
        "~/"@,
    ) {
        resolve_of(p, out)
    } else {
        Ok(out)
    }
}

pub fn portable_output(path_text: &str, paths: &CatalogPaths) -> (r: Result<String, String>)
    ensures
        r matches Ok(v) ==> portable_output_of(paths@, path_text@) == Ok::<Seq<char>, Seq<char>>(v@),
        r matches Err(e) ==> portable_output_of(paths@, path_text@) == Err::<Seq<char>, Seq<char>>(
            e@,
        ),
{
    let v = text::chars_of(path_text);
    if text::starts_with_str(&v, "$XDG_") || text::starts_with_str(&v, "$HOME/")
        || text::starts_with_str(&v, "~/") {
        paths.resolve(path_text)
    } else {
        Ok(String::from_str(path_text))
    }
}

/// A path with a leading `~/` taken under the home folder, where there is one.
pub open spec fn expand_tilde_of(p: Seq<char>, home: Option<Seq<char>>) -> Seq<char> {
    if text::starts_with(p, "~/"@) && home is Some {
        path::join(home->0, p.skip(2))
    } else {
        p
    }
}

/// The named components after `.` is dropped and each `..` removes the one
/// before it (none at the top).
pub open spec fn lexical_components(cs: Seq<Seq<char>>) -> Seq<Seq<char>>
    decreases cs.len(),
{
    if cs.len() == 0 {
        Seq::empty()
    } else {
        let before = lexical_components(cs.drop_last());
        if cs.last() == seq!['.', '.'] {
            if before.len() > 0 {
                before.drop_last()
            } else {
                before
            }
        } else {
            before.push(cs.last())
        }
    }
}

/// `normalized_output` once `~` is expanded: relative to the config folder,
/// then resolved lexically.
pub open spec fn normalized_output_of(p: Seq<char>, config_dir: Seq<char>, home: Option<Seq<char>>) -> Seq<char> {
    let expanded = expand_tilde_of(p, home);
    let absolute = if expanded.len() > 0 && expanded[0] == '/' {
        expanded
    } else {
        path::join(config_dir, expanded)
    };
    let names = text::join(lexical_components(path::kept_components(absolute)), seq!['/']);
    if absolute.len() > 0 && absolute[0] == '/' {
        seq!['/'] + names
    } else {
        names
    }
}

pub fn normalized_output_with(path_text: &str, config_dir: &str, home: Option<&str>) -> (r: String)
    ensures
        r@ == normalized_output_of(path_text@, config_dir@, crate::wallpaper::opt_str(home)),
{
    let v = text::chars_of(path_text);
    let expanded = match home {
        Some(h) => if text::starts_with_str(&v, "~/") {
            proof {
                reveal_strlit("~/");
            }
            let rest = text::slice_of(&v, 2, v.len());
            assert(rest@ =~= path_text@.skip(2));
            path::join_exec(h, text::string_of(&rest).as_str())
        } else {
            String::from_str(path_text)
        },
        None => String::from_str(path_text),
    };
    let ev = text::chars_of(expanded.as_str());
    let absolute = if ev.len() > 0 && ev[0] == '/' {
        expanded
    } else {
        path::join_exec(config_dir, expanded.as_str())
    };
    let av = text::chars_of(absolute.as_str());
    let kept = path::kept_components_exec(&av);
    let ghost kv = text::views(kept@);
    let mut stack: Vec<Vec<char>> = Vec::new();
    let mut i: usize = 0;
    while i < kept.len()
        invariant
            i <= kept.len(),
            kv == text::views(kept@),
            text::views(stack@) == lexical_components(kv.take(i as int)),
        decreases kept.len() - i,
    {
        assert(kv.take(i + 1).drop_last() =~= kv.take(i as int));
        assert(kv.take(i + 1).last() == kept@[i as int]@);
        let c = &kept[i];
        let dotdot = c.len() == 2 && c[0] == '.' && c[1] == '.';
        proof {
            if dotdot {
                assert(c@ =~= seq!['.', '.']);
            }
            if c@ == seq!['.', '.'] {
                assert(c@[0] == '.' && c@[1] == '.');
            }
        }
        if dotdot {
            if stack.len() > 0 {
                let ghost before = stack@;
                stack.pop();
                assert(text::views(stack@) =~= text::views(before).drop_last());
            }
        } else {
            let ghost before = stack@;
            stack.push(text::slice_of(c, 0, c.len()));
            assert(c@.subrange(0, c@.len() as int) =~= c@);
            assert(text::views(stack@) =~= text::views(before).push(c@));
        }
        i = i + 1;
    }
    assert(kv.take(kept.len() as int) =~= kv);
    let names = join_components(&stack, 0);
    assert(text::views(stack@).skip(0) =~= text::views(stack@));
    let mut out: Vec<char> = Vec::new();
    if av.len() > 0 && av[0] == '/' {
        out.push('/');
    }
    text::push_all(&mut out, &names);
    text::string_of(&out)
}

/// `normalized_output`, with the home folder from the environment.
pub fn normalized_output(path_text: &str, config_dir: &str) -> (r: String)
    ensures
        exists|home: Option<Seq<char>>| r@ == normalized_output_of(path_text@, config_dir@, home),
{
    let home = crate::xdg::home_dir();
    let h: Option<&str> = match &home {
        Some(s) => Some(s.as_str()),
        None => None,
    };
    normalized_output_with(path_text, config_dir, h)
}

} // verus!
