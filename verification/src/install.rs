//! Installing templates into matugen's `config.toml` and removing them: the
//! entries the file lists, the checks before an installation, the text added
//! for one, and the section taken out again.
use vstd::prelude::*;
use toml::Value;
use toml::Value::{Array, String as TomlString};
use crate::catalog::{
    CatalogPaths, InstalledTemplateEntry, PathsView, installed_key, installed_key_of, normalized_output_of,
    normalized_output_with, portable_output, portable_output_of, safe_template_name, safe_template_name_of,
    escape_toml_string, toml_escaped,
};
use crate::install::TomlOutput::{List, Other, Text};
use crate::install::TomlTemplates::{Invalid, NoTable, Table};
use crate::context::{opt_view, str_eq};
use crate::path;
use crate::text;
use crate::wallpaper::opt_str;

verus! {

/// What the `output_path` of a `[templates.*]` entry holds.
#[derive(Debug)]
pub enum TomlOutput {
    /// Missing, or neither a string nor an array.
    Other,
    Text(String),
    /// An array, with the strings among its values.
    List(Vec<Option<String>>),
}

/// One `[templates.*]` entry of `config.toml`, with the fields read from it.
#[derive(Debug)]
pub struct TomlTemplate {
    pub key: String,
    /// `input_path`, where it is a string.
    pub input_path: Option<String>,
    pub output_path: TomlOutput,
    /// `post_hook`, where it is a string.
    pub post_hook: Option<String>,
}

/// `config.toml` as the `toml` crate reads it.
#[derive(Debug)]
pub enum TomlTemplates {
    /// Not TOML: the parser's message.
    Invalid(String),
    /// No `templates` table.
    NoTable,
    /// The entries of the `templates` table, in the table's order.
    Table(Vec<TomlTemplate>),
}

pub enum OutputView {
    Other,
    Text(Seq<char>),
    List(Seq<Option<Seq<char>>>),
}

pub struct TemplateView {
    pub key: Seq<char>,
    pub input_path: Option<Seq<char>>,
    pub output_path: OutputView,
    pub post_hook: Option<Seq<char>>,
}

pub enum TemplatesView {
    Invalid(Seq<char>),
    NoTable,
    Table(Seq<TemplateView>),
}

impl View for TomlOutput {
    type V = OutputView;

    open spec fn view(&self) -> OutputView {
        match self {
            TomlOutput::Other => OutputView::Other,
            TomlOutput::Text(s) => OutputView::Text(s@),
            TomlOutput::List(v) => OutputView::List(v@.map_values(|o: Option<String>| opt_view(o))),
        }
    }
}

impl View for TomlTemplate {
    type V = TemplateView;

    open spec fn view(&self) -> TemplateView {
        TemplateView {
            key: self.key@,
            input_path: opt_view(self.input_path),
            output_path: self.output_path@,
            post_hook: opt_view(self.post_hook),
        }
    }
}

pub open spec fn templates_view(v: Seq<TomlTemplate>) -> Seq<TemplateView> {
    v.map_values(|t: TomlTemplate| t@)
}

impl View for TomlTemplates {
    type V = TemplatesView;

    open spec fn view(&self) -> TemplatesView {
        match self {
            TomlTemplates::Invalid(e) => TemplatesView::Invalid(e@),
            TomlTemplates::NoTable => TemplatesView::NoTable,
            TomlTemplates::Table(v) => TemplatesView::Table(templates_view(v@)),
        }
    }
}

/// What `toml::from_str::<toml::Value>` makes of a document, reduced to the
/// `templates` table's entries.
pub uninterp spec fn toml_templates(document: Seq<char>) -> TemplatesView;

/// Parses the document with `toml::from_str` into a `toml::Value` and reads
/// its `templates` table: each entry's key, its `input_path` and `post_hook`
/// where each is a string, and its `output_path` as a string or the string
/// values of an array. The result is what `toml_templates` names; nothing more is claimed.
#[verifier::external_body]
fn parse_templates(document: &str) -> (r: TomlTemplates)
    ensures
        r@ == toml_templates(document@),
{
    toml::from_str(document).map_or_else(|e| Invalid(e.to_string()), |value: Value| value
        .get("templates")
        .and_then(Value::as_table)
        .map_or(NoTable, |table| Table(table.iter().map(|(key, entry)| TomlTemplate {
            key: key.clone(),
            input_path: entry.get("input_path").and_then(Value::as_str).map(String::from),
            post_hook: entry.get("post_hook").and_then(Value::as_str).map(String::from),
            output_path: match entry.get("output_path") {
                Some(TomlString(path)) => Text(path.clone()),
                Some(Array(values)) => List(values.iter().map(|v| v.as_str().map(String::from)).collect()),
                _ => Other,
            },
        }).collect())))
}

// ── Reading the file ─────────────────────────────────────────────────────────

/// The document that is parsed: the file, with a `[config]` table put
/// first where it has none.
pub open spec fn config_document(content: Seq<char>) -> Seq<char> {
    if text::contains(content, "[config]"@) {
        content
    } else {
        "[config]\n"@ + content
    }
}

fn config_document_exec(content: &str) -> (r: String)
    ensures
        r@ == config_document(content@),
{
    let cv = text::chars_of(content);
    if text::contains_str(&cv, "[config]") {
        String::from_str(content)
    } else {
        let mut out = text::chars_of("[config]\n");
        text::push_all(&mut out, &cv);
        text::string_of(&out)
    }
}

/// `template_table`: the `templates` entries of the file, `None` where it has
/// no such table, or the parser's message.
pub open spec fn template_table_of(content: Seq<char>) -> Result<Option<Seq<TemplateView>>, Seq<char>> {
    match toml_templates(config_document(content)) {
        TemplatesView::Invalid(e) => Err("Invalid config.toml: "@ + e),
        TemplatesView::NoTable => Ok(None),
        TemplatesView::Table(t) => Ok(Some(t)),
    }
}

pub open spec fn table_view(r: Result<Option<Vec<TomlTemplate>>, String>) -> Result<
    Option<Seq<TemplateView>>,
    Seq<char>,
> {
    match r {
        Ok(Some(v)) => Ok(Some(templates_view(v@))),
        Ok(None) => Ok(None),
        Err(e) => Err(e@),
    }
}

pub fn template_table(content: &str) -> (r: Result<Option<Vec<TomlTemplate>>, String>)
    ensures
        table_view(r) == template_table_of(content@),
{
    let document = config_document_exec(content);
    match parse_templates(document.as_str()) {
        Invalid(e) => {
            let mut m = text::chars_of("Invalid config.toml: ");
            text::push_str(&mut m, e.as_str());
            Err(text::string_of(&m))
        },
        NoTable => Ok(None),
        Table(t) => Ok(Some(t)),
    }
}

/// The entries of `config.toml`, read as it stands (no `[config]` table is
/// put first), as a preset snapshots them; none where the file is not TOML
/// or has no `templates` table.
pub open spec fn snapshot_entries_of(content: Seq<char>) -> Seq<TemplateView> {
    match toml_templates(content) {
        TemplatesView::Table(t) => t,
        _ => Seq::empty(),
    }
}

pub fn snapshot_entries(content: &str) -> (r: Vec<TomlTemplate>)
    ensures
        templates_view(r@) == snapshot_entries_of(content@),
{
    match parse_templates(content) {
        Table(t) => t,
        _ => {
            let v: Vec<TomlTemplate> = Vec::new();
            assert(templates_view(v@) =~= Seq::<TemplateView>::empty());
            v
        },
    }
}

/// The keys of the entries, in order.
pub open spec fn template_keys(t: Seq<TemplateView>) -> Seq<Seq<char>> {
    t.map_values(|e: TemplateView| e.key)
}

/// `get_installed_templates`: the keys of the file's template entries; none
/// where the file does not exist (`content` is `None`).
pub open spec fn installed_templates_of(content: Option<Seq<char>>) -> Result<Seq<Seq<char>>, Seq<char>> {
    match content {
        None => Ok(Seq::empty()),
        Some(c) => match template_table_of(c) {
            Err(e) => Err(e),
            Ok(None) => Ok(Seq::empty()),
            Ok(Some(t)) => Ok(template_keys(t)),
        },
    }
}

pub open spec fn strings_view(v: Seq<String>) -> Seq<Seq<char>> {
    v.map_values(|s: String| s@)
}

pub fn installed_templates(content: Option<&str>) -> (r: Result<Vec<String>, String>)
    ensures
        r matches Ok(v) ==> installed_templates_of(opt_str(content)) == Ok::<Seq<Seq<char>>, Seq<char>>(
            strings_view(v@),
        ),
        r matches Err(e) ==> installed_templates_of(opt_str(content)) == Err::<Seq<Seq<char>>, Seq<char>>(
            e@,
        ),
{
    let c = match content {
        None => {
            let v: Vec<String> = Vec::new();
            assert(strings_view(v@) =~= Seq::<Seq<char>>::empty());
            return Ok(v);
        },
        Some(c) => c,
    };
    let t = match template_table(c) {
        Err(e) => return Err(e),
        Ok(None) => {
            let v: Vec<String> = Vec::new();
            assert(strings_view(v@) =~= Seq::<Seq<char>>::empty());
            return Ok(v);
        },
        Ok(Some(t)) => t,
    };
    let ghost tv = templates_view(t@);
    let mut keys: Vec<String> = Vec::new();
    let mut i: usize = 0;
    while i < t.len()
        invariant
            i <= t.len(),
            tv == templates_view(t@),
            keys.len() == i,
            forall|k: int| 0 <= k < i ==> #[trigger] keys@[k]@ == tv[k].key,
        decreases t.len() - i,
    {
        keys.push(t[i].key.clone());
        i = i + 1;
    }
    assert(strings_view(keys@) =~= template_keys(tv));
    Ok(keys)
}

/// The listing of one entry: both paths strings, resolved and normalized
/// against the config folder; `None` where either is missing or does not
/// resolve.
pub open spec fn entry_listing(
    e: TemplateView,
    p: PathsView,
    config_dir: Seq<char>,
    home: Option<Seq<char>>,
) -> Option<(Seq<char>, Seq<char>, Seq<char>)> {
    match (e.input_path, e.output_path) {
        (Some(input), OutputView::Text(output)) => match (
            portable_output_of(p, input),
            portable_output_of(p, output),
        ) {
            (Ok(i), Ok(o)) => Some(
                (e.key, normalized_output_of(i, config_dir, home), normalized_output_of(o, config_dir, home)),
            ),
            _ => None,
        },
        _ => None,
    }
}

/// The listings of the entries that have one, in order.
pub open spec fn entry_listings(
    t: Seq<TemplateView>,
    p: PathsView,
    config_dir: Seq<char>,
    home: Option<Seq<char>>,
) -> Seq<(Seq<char>, Seq<char>, Seq<char>)>
    decreases t.len(),
{
    if t.len() == 0 {
        Seq::empty()
    } else {
        let before = entry_listings(t.drop_last(), p, config_dir, home);
        match entry_listing(t.last(), p, config_dir, home) {
            Some(x) => before.push(x),
            None => before,
        }
    }
}

pub open spec fn listing_view(e: InstalledTemplateEntry) -> (Seq<char>, Seq<char>, Seq<char>) {
    (e.key@, e.input_path@, e.output_path@)
}

pub open spec fn listings_view(v: Seq<InstalledTemplateEntry>) -> Seq<(Seq<char>, Seq<char>, Seq<char>)> {
    v.map_values(|e: InstalledTemplateEntry| listing_view(e))
}

/// `get_installed_template_entries`: the entries whose paths are strings that
/// resolve.
pub open spec fn installed_entries_of(
    content: Option<Seq<char>>,
    p: PathsView,
    config_dir: Seq<char>,
    home: Option<Seq<char>>,
) -> Result<Seq<(Seq<char>, Seq<char>, Seq<char>)>, Seq<char>> {
    match content {
        None => Ok(Seq::empty()),
        Some(c) => match template_table_of(c) {
            Err(e) => Err(e),
            Ok(None) => Ok(Seq::empty()),
            Ok(Some(t)) => Ok(entry_listings(t, p, config_dir, home)),
        },
    }
}

fn entry_listing_exec(
    e: &TomlTemplate,
    paths: &CatalogPaths,
    config_dir: &str,
    home: Option<&str>,
) -> (r: Option<InstalledTemplateEntry>)
    ensures
        r matches Some(x) ==> entry_listing(e@, paths@, config_dir@, opt_str(home)) == Some(listing_view(x)),
        r is None ==> entry_listing(e@, paths@, config_dir@, opt_str(home)) is None,
{
    let input = match &e.input_path {
        Some(i) => i,
        None => return None,
    };
    let output = match &e.output_path {
        Text(o) => o,
        _ => return None,
    };
    let i = match portable_output(input.as_str(), paths) {
        Ok(i) => i,
        Err(_) => return None,
    };
    let o = match portable_output(output.as_str(), paths) {
        Ok(o) => o,
        Err(_) => return None,
    };
    Some(
        InstalledTemplateEntry {
            key: e.key.clone(),
            input_path: normalized_output_with(i.as_str(), config_dir, home),
            output_path: normalized_output_with(o.as_str(), config_dir, home),
        },
    )
}

pub fn installed_entries(
    content: Option<&str>,
    paths: &CatalogPaths,
    config_dir: &str,
    home: Option<&str>,
) -> (r: Result<Vec<InstalledTemplateEntry>, String>)
    ensures
        r matches Ok(v) ==> installed_entries_of(opt_str(content), paths@, config_dir@, opt_str(home))
            == Ok::<Seq<(Seq<char>, Seq<char>, Seq<char>)>, Seq<char>>(listings_view(v@)),
        r matches Err(e) ==> installed_entries_of(opt_str(content), paths@, config_dir@, opt_str(home))
            == Err::<Seq<(Seq<char>, Seq<char>, Seq<char>)>, Seq<char>>(e@),
{
    let c = match content {
        None => {
            let v: Vec<InstalledTemplateEntry> = Vec::new();
            assert(listings_view(v@) =~= Seq::<(Seq<char>, Seq<char>, Seq<char>)>::empty());
            return Ok(v);
        },
        Some(c) => c,
    };
    let t = match template_table(c) {
        Err(e) => return Err(e),
        Ok(None) => {
            let v: Vec<InstalledTemplateEntry> = Vec::new();
            assert(listings_view(v@) =~= Seq::<(Seq<char>, Seq<char>, Seq<char>)>::empty());
            return Ok(v);
        },
        Ok(Some(t)) => t,
    };
    let ghost tv = templates_view(t@);
    let mut out: Vec<InstalledTemplateEntry> = Vec::new();
    let mut i: usize = 0;
    assert(listings_view(out@) =~= entry_listings(tv.take(0), paths@, config_dir@, opt_str(home)));
    while i < t.len()
        invariant
            i <= t.len(),
            tv == templates_view(t@),
            listings_view(out@) == entry_listings(tv.take(i as int), paths@, config_dir@, opt_str(home)),
        decreases t.len() - i,
    {
        assert(tv.take(i + 1).drop_last() =~= tv.take(i as int));
        assert(tv.take(i + 1).last() == t@[i as int]@);
        let ghost before = out@;
        match entry_listing_exec(&t[i], paths, config_dir, home) {
            Some(x) => {
                out.push(x);
                assert(listings_view(out@) =~= listings_view(before).push(listing_view(x)));
            },
            None => {},
        }
        i = i + 1;
    }
    assert(tv.take(t.len() as int) =~= tv);
    Ok(out)
}

// ── Installing ───────────────────────────────────────────────────────────────

/// An output path resolves, and normalized it is the requested output.
pub open spec fn same_output(
    path_text: Seq<char>,
    requested: Seq<char>,
    p: PathsView,
    config_dir: Seq<char>,
    home: Option<Seq<char>>,
) -> bool {
    match portable_output_of(p, path_text) {
        Ok(resolved) => normalized_output_of(resolved, config_dir, home) == requested,
        Err(_) => false,
    }
}

/// The entry's `output_path` (a string, or any string of an array) is the
/// requested output.
pub open spec fn claims_output(
    o: OutputView,
    requested: Seq<char>,
    p: PathsView,
    config_dir: Seq<char>,
    home: Option<Seq<char>>,
) -> bool {
    match o {
        OutputView::Text(s) => same_output(s, requested, p, config_dir, home),
        OutputView::List(vs) => exists|i: int|
            0 <= i < vs.len() && #[trigger] vs[i] is Some && same_output(vs[i]->0, requested, p, config_dir, home),
        OutputView::Other => false,
    }
}

/// The key of the first entry, other than `key`, that claims the requested output.
pub open spec fn output_conflict(
    t: Seq<TemplateView>,
    key: Seq<char>,
    requested: Seq<char>,
    p: PathsView,
    config_dir: Seq<char>,
    home: Option<Seq<char>>,
) -> Option<Seq<char>>
    decreases t.len(),
{
    if t.len() == 0 {
        None
    } else if t[0].key != key && claims_output(t[0].output_path, requested, p, config_dir, home) {
        Some(t[0].key)
    } else {
        output_conflict(t.drop_first(), key, requested, p, config_dir, home)
    }
}

/// Some entry has the key.
pub open spec fn has_key(t: Seq<TemplateView>, key: Seq<char>) -> bool {
    exists|i: int| 0 <= i < t.len() && #[trigger] t[i].key == key
}

/// Where an installation goes: the entry's key, the managed copy of the
/// template, and the normalized output path.
#[derive(Debug)]
pub struct InstallTarget {
    pub name_key: String,
    pub dest_path: String,
    pub requested_output: String,
}

pub open spec fn target_view(t: InstallTarget) -> (Seq<char>, Seq<char>, Seq<char>) {
    (t.name_key@, t.dest_path@, t.requested_output@)
}

/// The managed copy of a template: `templates/NAME` in the config folder.
pub open spec fn managed_input(config_dir: Seq<char>, name: Seq<char>) -> Seq<char> {
    path::join(path::join(config_dir, "templates"@), name)
}

/// The checks of an installation that read the config text: the
/// output path resolves, the name is a plain file name, the file parses, the
/// key is not installed yet and no other entry claims the output.
pub open spec fn install_target_of(
    config_dir: Seq<char>,
    content: Seq<char>,
    template_name: Seq<char>,
    output_path: Seq<char>,
    p: PathsView,
    home: Option<Seq<char>>,
) -> Result<(Seq<char>, Seq<char>, Seq<char>), Seq<char>> {
    match portable_output_of(p, output_path) {
        Err(e) => Err(e),
        Ok(out) => if !safe_template_name_of(template_name) {
            Err("Invalid template name"@)
        } else {
            let key = installed_key_of(template_name);
            let dest = managed_input(config_dir, template_name);
            let requested = normalized_output_of(out, config_dir, home);
            match template_table_of(content) {
                Err(e) => Err(e),
                Ok(None) => Ok((key, dest, requested)),
                Ok(Some(t)) => if has_key(t, key) {
                    Err("Template already installed. Please check your matugen config.toml"@)
                } else {
                    match output_conflict(t, key, requested, p, config_dir, home) {
                        Some(other) => Err("Output path is already used by installed template '"@ + other + "'"@),
                        None => Ok((key, dest, requested)),
                    }
                }
            }
        },
    }
}

fn same_output_exec(
    path_text: &str,
    requested: &str,
    paths: &CatalogPaths,
    config_dir: &str,
    home: Option<&str>,
) -> (r: bool)
    ensures
        r == same_output(path_text@, requested@, paths@, config_dir@, opt_str(home)),
{
    match portable_output(path_text, paths) {
        Ok(resolved) => {
            let n = normalized_output_with(resolved.as_str(), config_dir, home);
            str_eq(n.as_str(), requested)
        },
        Err(_) => false,
    }
}

fn claims_output_exec(
    o: &TomlOutput,
    requested: &str,
    paths: &CatalogPaths,
    config_dir: &str,
    home: Option<&str>,
) -> (r: bool)
    ensures
        r == claims_output(o@, requested@, paths@, config_dir@, opt_str(home)),
{
    match o {
        Text(s) => same_output_exec(s.as_str(), requested, paths, config_dir, home),
        List(vs) => {
            let ghost vv = vs@.map_values(|x: Option<String>| opt_view(x));
            assert(o@ == OutputView::List(vv));
            let mut i: usize = 0;
            while i < vs.len()
                invariant
                    i <= vs.len(),
                    o@ == OutputView::List(vv),
                    vv == vs@.map_values(|x: Option<String>| opt_view(x)),
                    forall|j: int|
                        0 <= j < i ==> !(#[trigger] vv[j] is Some && same_output(
                            vv[j]->0,
                            requested@,
                            paths@,
                            config_dir@,
                            opt_str(home),
                        )),
                decreases vs.len() - i,
            {
                assert(vv[i as int] == opt_view(vs@[i as int]));
                match &vs[i] {
                    Some(s) => {
                        if same_output_exec(s.as_str(), requested, paths, config_dir, home) {
                            assert(vv[i as int] is Some && same_output(
                                vv[i as int]->0,
                                requested@,
                                paths@,
                                config_dir@,
                                opt_str(home),
                            ));
                            assert(o@ == OutputView::List(vv));
                            assert(claims_output(o@, requested@, paths@, config_dir@, opt_str(home)));
                            return true;
                        }
                    },
                    None => {},
                }
                i = i + 1;
            }
            false
        },
        Other => false,
    }
}

fn output_conflict_exec(
    t: &Vec<TomlTemplate>,
    key: &str,
    requested: &str,
    paths: &CatalogPaths,
    config_dir: &str,
    home: Option<&str>,
) -> (r: Option<String>)
    ensures
        r matches Some(o) ==> output_conflict(templates_view(t@), key@, requested@, paths@, config_dir@, opt_str(home))
            == Some(o@),
        r is None ==> output_conflict(templates_view(t@), key@, requested@, paths@, config_dir@, opt_str(home))
            is None,
{
    let ghost tv = templates_view(t@);
    let mut i: usize = 0;
    assert(tv.skip(0) =~= tv);
    while i < t.len()
        invariant
            i <= t.len(),
            tv == templates_view(t@),
            output_conflict(tv, key@, requested@, paths@, config_dir@, opt_str(home)) == output_conflict(
                tv.skip(i as int),
                key@,
                requested@,
                paths@,
                config_dir@,
                opt_str(home),
            ),
        decreases t.len() - i,
    {
        assert(tv.skip(i as int)[0] == t@[i as int]@);
        assert(tv.skip(i as int).drop_first() =~= tv.skip(i + 1));
        let e = &t[i];
        if !str_eq(e.key.as_str(), key) && claims_output_exec(&e.output_path, requested, paths, config_dir, home) {
            return Some(e.key.clone());
        }
        i = i + 1;
    }
    assert(tv.skip(t.len() as int) =~= Seq::<TemplateView>::empty());
    None
}

fn has_key_exec(t: &Vec<TomlTemplate>, key: &str) -> (r: bool)
    ensures
        r == has_key(templates_view(t@), key@),
{
    let ghost tv = templates_view(t@);
    let mut i: usize = 0;
    while i < t.len()
        invariant
            i <= t.len(),
            tv == templates_view(t@),
            forall|j: int| 0 <= j < i ==> #[trigger] tv[j].key != key@,
        decreases t.len() - i,
    {
        assert(tv[i as int] == t@[i as int]@);
        if str_eq(t[i].key.as_str(), key) {
            assert(tv[i as int].key == key@);
            return true;
        }
        i = i + 1;
    }
    false
}

/// The checks of an installation on the config text, before the
/// filesystem is consulted; `content` is the file's text, empty where it does
/// not exist.
pub fn install_target(
    config_dir: &str,
    content: &str,
    template_name: &str,
    output_path: &str,
    paths: &CatalogPaths,
    home: Option<&str>,
) -> (r: Result<InstallTarget, String>)
    ensures
        r matches Ok(t) ==> install_target_of(config_dir@, content@, template_name@, output_path@, paths@, opt_str(home))
            == Ok::<(Seq<char>, Seq<char>, Seq<char>), Seq<char>>(target_view(t)),
        r matches Err(e) ==> install_target_of(config_dir@, content@, template_name@, output_path@, paths@, opt_str(home))
            == Err::<(Seq<char>, Seq<char>, Seq<char>), Seq<char>>(e@),
{
    let out = match portable_output(output_path, paths) {
        Ok(o) => o,
        Err(e) => return Err(e),
    };
    let safe = match safe_template_name(template_name) {
        Ok(s) => s,
        Err(e) => return Err(e),
    };
    let key = installed_key(safe);
    let templates_dir = path::join_exec(config_dir, "templates");
    let dest = path::join_exec(templates_dir.as_str(), safe);
    let requested = normalized_output_with(out.as_str(), config_dir, home);
    let table = match template_table(content) {
        Err(e) => return Err(e),
        Ok(t) => t,
    };
    if let Some(t) = table {
        if has_key_exec(&t, key.as_str()) {
            return Err(String::from_str("Template already installed. Please check your matugen config.toml"));
        }
        if let Some(other) = output_conflict_exec(&t, key.as_str(), requested.as_str(), paths, config_dir, home) {
            let mut m = text::chars_of("Output path is already used by installed template '");
            text::push_str(&mut m, other.as_str());
            text::push_str(&mut m, "'");
            return Err(text::string_of(&m));
        }
    }
    Ok(InstallTarget { name_key: key, dest_path: dest, requested_output: requested })
}

/// The `post_hook` line: the hook trimmed and escaped; nothing for a blank hook.
pub open spec fn hook_line(hook: Option<Seq<char>>) -> Seq<char> {
    match hook {
        Some(h) => if text::trim(h).len() > 0 {
            "post_hook = \""@ + toml_escaped(text::trim(h)) + "\"\n"@
        } else {
            Seq::empty()
        },
        None => Seq::empty(),
    }
}

/// The config text an installation writes: the file with `[config]` first
/// where it had none, then the new entry.
pub open spec fn installed_config_of(
    content: Seq<char>,
    target: (Seq<char>, Seq<char>, Seq<char>),
    hook: Option<Seq<char>>,
) -> Seq<char> {
    config_document(content) + "\n[templates.\""@ + toml_escaped(target.0) + "\"]\ninput_path = \""@
        + toml_escaped(target.1) + "\"\noutput_path = \""@ + toml_escaped(target.2) + "\"\n"@ + hook_line(hook)
}

/// The new config text, checked to parse; the parser's message where it does not.
pub fn installed_config(content: &str, target: &InstallTarget, post_hook: Option<&str>) -> (r: Result<String, String>)
    ensures
        r matches Ok(s) ==> s@ == installed_config_of(content@, target_view(*target), opt_str(post_hook))
            && template_table_of(s@) is Ok,
        r matches Err(e) ==> template_table_of(installed_config_of(content@, target_view(*target), opt_str(post_hook)))
            == Err::<Option<Seq<TemplateView>>, Seq<char>>(e@),
{
    let doc = config_document_exec(content);
    let mut out = text::chars_of(doc.as_str());
    text::push_str(&mut out, "\n[templates.\"");
    text::push_str(&mut out, escape_toml_string(target.name_key.as_str()).as_str());
    text::push_str(&mut out, "\"]\ninput_path = \"");
    text::push_str(&mut out, escape_toml_string(target.dest_path.as_str()).as_str());
    text::push_str(&mut out, "\"\noutput_path = \"");
    text::push_str(&mut out, escape_toml_string(target.requested_output.as_str()).as_str());
    text::push_str(&mut out, "\"\n");
    if let Some(h) = post_hook {
        let trimmed = text::trim_exec(&text::chars_of(h));
        if trimmed.len() > 0 {
            text::push_str(&mut out, "post_hook = \"");
            let ts = text::string_of(&trimmed);
            text::push_str(&mut out, escape_toml_string(ts.as_str()).as_str());
            text::push_str(&mut out, "\"\n");
        }
    }
    assert(out@ =~= installed_config_of(content@, target_view(*target), opt_str(post_hook)));
    let s = text::string_of(&out);
    match template_table(s.as_str()) {
        Ok(_) => Ok(s),
        Err(e) => Err(e),
    }
}

// ── Uninstalling ─────────────────────────────────────────────────────────────

/// `str::split_inclusive('\n')`: the lines, each with its `\n`, and the text
/// after the last `\n` where there is any.
pub open spec fn split_inclusive(s: Seq<char>) -> Seq<Seq<char>> {
    let parts = text::split_char(s, '\n');
    let body = parts.drop_last().map_values(|l: Seq<char>| l.push('\n'));
    if parts.last().len() == 0 {
        body
    } else {
        body.push(parts.last())
    }
}

fn split_inclusive_exec(s: &[char]) -> (r: Vec<Vec<char>>)
    ensures
        text::views(r@) == split_inclusive(s@),
{
    let parts = text::split_char_exec(s, '\n');
    proof {
        text::lemma_split_char_nonempty(s@, '\n');
    }
    let ghost pv = text::split_char(s@, '\n');
    let n = parts.len() - 1;
    let mut out: Vec<Vec<char>> = Vec::new();
    let mut i: usize = 0;
    while i < n
        invariant
            n == parts.len() - 1,
            i <= n,
            text::views(parts@) == pv,
            out.len() == i,
            forall|k: int| 0 <= k < i ==> #[trigger] out@[k]@ == pv[k].push('\n'),
        decreases n - i,
    {
        assert(parts@[i as int]@ == pv[i as int]);
        let mut l = text::slice_of(&parts[i], 0, parts[i].len());
        assert(l@ =~= pv[i as int]);
        l.push('\n');
        out.push(l);
        i = i + 1;
    }
    assert(parts@[n as int]@ == pv.last());
    if parts[n].len() > 0 {
        let l = text::slice_of(&parts[n], 0, parts[n].len());
        assert(l@ =~= pv.last());
        out.push(l);
    }
    assert(text::views(out@) =~= split_inclusive(s@));
    out
}

/// The two ways a template's table header may be written: quoted as this
/// program writes it, and bare.
pub open spec fn quoted_header(key: Seq<char>) -> Seq<char> {
    "[templates.\""@ + toml_escaped(key) + "\"]"@
}

pub open spec fn bare_header(key: Seq<char>) -> Seq<char> {
    "[templates."@ + key + "]"@
}

/// The new skipping state after a line: a header line starts or ends the
/// skipped section.
pub open spec fn skip_after(line: Seq<char>, skip: bool, quoted: Seq<char>, bare: Seq<char>) -> bool {
    let t = text::trim(line);
    if text::starts_with(t, "["@) {
        t == quoted || t == bare
    } else {
        skip
    }
}

/// The lines kept, from the state `skip` on.
pub open spec fn kept_text(ls: Seq<Seq<char>>, skip: bool, quoted: Seq<char>, bare: Seq<char>) -> Seq<char>
    decreases ls.len(),
{
    if ls.len() == 0 {
        Seq::empty()
    } else {
        let s = skip_after(ls[0], skip, quoted, bare);
        (if s {
            Seq::empty()
        } else {
            ls[0]
        }) + kept_text(ls.drop_first(), s, quoted, bare)
    }
}

/// Some line opens the template's table.
pub open spec fn has_section(ls: Seq<Seq<char>>, quoted: Seq<char>, bare: Seq<char>) -> bool {
    exists|i: int|
        0 <= i < ls.len() && skip_after(#[trigger] ls[i], false, quoted, bare)
}

/// The file without the template's table (from its header to the next
/// header); `None` where no line opens it.
pub open spec fn without_section_of(content: Seq<char>, key: Seq<char>) -> Option<Seq<char>> {
    let ls = split_inclusive(content);
    if has_section(ls, quoted_header(key), bare_header(key)) {
        Some(kept_text(ls, false, quoted_header(key), bare_header(key)))
    } else {
        None
    }
}

/// The template's table taken out of the config text.
pub fn without_section(content: &str, name_key: &str) -> (r: Result<String, String>)
    ensures
        r matches Ok(s) ==> without_section_of(content@, name_key@) == Some(s@),
        r matches Err(e) ==> without_section_of(content@, name_key@) is None && e@
            == "Installed template has no removable config section"@,
{
    let mut q = text::chars_of("[templates.\"");
    text::push_str(&mut q, escape_toml_string(name_key).as_str());
    text::push_str(&mut q, "\"]");
    let mut b = text::chars_of("[templates.");
    text::push_str(&mut b, name_key);
    text::push_str(&mut b, "]");
    assert(q@ =~= quoted_header(name_key@));
    assert(b@ =~= bare_header(name_key@));
    let cv = text::chars_of(content);
    let ls = split_inclusive_exec(&cv);
    let ghost lv = split_inclusive(content@);
    let mut out: Vec<char> = Vec::new();
    let mut skip = false;
    let mut found = false;
    let mut i: usize = 0;
    assert(lv.skip(0) =~= lv);
    while i < ls.len()
        invariant
            i <= ls.len(),
            text::views(ls@) == lv,
            q@ == quoted_header(name_key@),
            b@ == bare_header(name_key@),
            kept_text(lv, false, q@, b@) == out@ + kept_text(lv.skip(i as int), skip, q@, b@),
            found <==> exists|j: int| 0 <= j < i && skip_after(#[trigger] lv[j], false, q@, b@),
        decreases ls.len() - i,
    {
        assert(lv.skip(i as int)[0] == lv[i as int]);
        assert(lv.skip(i as int).drop_first() =~= lv.skip(i + 1));
        assert(ls@[i as int]@ == lv[i as int]);
        let t = text::trim_exec(&ls[i]);
        let opens = text::starts_with_str(&t, "[");
        let header = opens && (text::seq_eq(&t, &q) || text::seq_eq(&t, &b));
        assert(header == skip_after(lv[i as int], false, q@, b@));
        if opens {
            skip = header;
        }
        if header {
            found = true;
        }
        if !skip {
            text::push_all(&mut out, &ls[i]);
        }
        i = i + 1;
    }
    assert(kept_text(lv.skip(ls.len() as int), skip, q@, b@) =~= Seq::<char>::empty()) by {
        assert(lv.skip(ls.len() as int).len() == 0);
    }
    assert(out@ =~= kept_text(lv, false, q@, b@));
    if !found {
        return Err(String::from_str("Installed template has no removable config section"));
    }
    Ok(text::string_of(&out))
}

/// The first entry with the key.
pub open spec fn entry_with_key(t: Seq<TemplateView>, key: Seq<char>) -> Option<TemplateView>
    decreases t.len(),
{
    if t.len() == 0 {
        None
    } else if t[0].key == key {
        Some(t[0])
    } else {
        entry_with_key(t.drop_first(), key)
    }
}

/// The entry's `input_path` is the managed copy, normalized.
pub open spec fn uses_input(
    e: TemplateView,
    owned: Seq<char>,
    config_dir: Seq<char>,
    home: Option<Seq<char>>,
) -> bool {
    e.input_path matches Some(ip) && normalized_output_of(ip, config_dir, home) == normalized_output_of(
        owned,
        config_dir,
        home,
    )
}

/// The managed copy belongs to the entry alone: it uses it, and no entry
/// with another key does.
pub open spec fn owns_input(
    t: Seq<TemplateView>,
    e: TemplateView,
    key: Seq<char>,
    owned: Seq<char>,
    config_dir: Seq<char>,
    home: Option<Seq<char>>,
) -> bool {
    &&& uses_input(e, owned, config_dir, home)
    &&& forall|j: int|
        0 <= j < t.len() && #[trigger] t[j].key != key ==> !uses_input(t[j], owned, config_dir, home)
}

/// What uninstalling does to the config: `None` where there is nothing to
/// do; else the new text, and the managed copy to delete where the entry
/// owned it.
pub open spec fn uninstall_of(
    config_dir: Seq<char>,
    content: Option<Seq<char>>,
    template_name: Seq<char>,
    home: Option<Seq<char>>,
) -> Result<Option<(Seq<char>, Option<Seq<char>>)>, Seq<char>> {
    if !safe_template_name_of(template_name) {
        Err("Invalid template name"@)
    } else {
        let key = installed_key_of(template_name);
        let owned = managed_input(config_dir, template_name);
        match content {
            None => Ok(None),
            Some(c) => match template_table_of(c) {
                Err(e) => Err(e),
                Ok(None) => Ok(None),
                Ok(Some(t)) => match entry_with_key(t, key) {
                    None => Ok(None),
                    Some(e) => match without_section_of(c, key) {
                        None => Err("Installed template has no removable config section"@),
                        Some(nc) => Ok(
                            Some(
                                (
                                    nc,
                                    if owns_input(t, e, key, owned, config_dir, home) {
                                        Some(owned)
                                    } else {
                                        None
                                    },
                                ),
                            ),
                        ),
                    },
                },
            },
        }
    }
}

/// The new config text, and the managed copy of the template to delete.
#[derive(Debug)]
pub struct UninstallPlan {
    pub config_content: String,
    pub owned_input: Option<String>,
}

pub open spec fn plan_view(p: UninstallPlan) -> (Seq<char>, Option<Seq<char>>) {
    (p.config_content@, opt_view(p.owned_input))
}

fn entry_with_key_exec<'a>(t: &'a Vec<TomlTemplate>, key: &str) -> (r: Option<&'a TomlTemplate>)
    ensures
        r matches Some(e) ==> entry_with_key(templates_view(t@), key@) == Some(e@),
        r is None ==> entry_with_key(templates_view(t@), key@) is None,
{
    let ghost tv = templates_view(t@);
    let mut i: usize = 0;
    assert(tv.skip(0) =~= tv);
    while i < t.len()
        invariant
            i <= t.len(),
            tv == templates_view(t@),
            entry_with_key(tv, key@) == entry_with_key(tv.skip(i as int), key@),
        decreases t.len() - i,
    {
        assert(tv.skip(i as int)[0] == t@[i as int]@);
        assert(tv.skip(i as int).drop_first() =~= tv.skip(i + 1));
        if str_eq(t[i].key.as_str(), key) {
            return Some(&t[i]);
        }
        i = i + 1;
    }
    assert(tv.skip(t.len() as int) =~= Seq::<TemplateView>::empty());
    None
}

fn uses_input_exec(e: &TomlTemplate, owned_norm: &str, config_dir: &str, home: Option<&str>, Ghost(owned): Ghost<Seq<char>>) -> (r: bool)
    requires
        owned_norm@ == normalized_output_of(owned, config_dir@, opt_str(home)),
    ensures
        r == uses_input(e@, owned, config_dir@, opt_str(home)),
{
    match &e.input_path {
        Some(ip) => {
            let n = normalized_output_with(ip.as_str(), config_dir, home);
            str_eq(n.as_str(), owned_norm)
        },
        None => false,
    }
}

/// Uninstalling a template, up to the filesystem: `content` is the text of
/// `config.toml`, `None` where the file does not exist.
pub fn plan_uninstall(
    config_dir: &str,
    content: Option<&str>,
    template_name: &str,
    home: Option<&str>,
) -> (r: Result<Option<UninstallPlan>, String>)
    ensures
        r matches Ok(Some(p)) ==> uninstall_of(config_dir@, opt_str(content), template_name@, opt_str(home))
            == Ok::<Option<(Seq<char>, Option<Seq<char>>)>, Seq<char>>(Some(plan_view(p))),
        r matches Ok(None) ==> uninstall_of(config_dir@, opt_str(content), template_name@, opt_str(home))
            == Ok::<Option<(Seq<char>, Option<Seq<char>>)>, Seq<char>>(None),
        r matches Err(e) ==> uninstall_of(config_dir@, opt_str(content), template_name@, opt_str(home))
            == Err::<Option<(Seq<char>, Option<Seq<char>>)>, Seq<char>>(e@),
{
    let safe = match safe_template_name(template_name) {
        Ok(s) => s,
        Err(e) => return Err(e),
    };
    let key = installed_key(safe);
    let templates_dir = path::join_exec(config_dir, "templates");
    let owned = path::join_exec(templates_dir.as_str(), safe);
    let c = match content {
        None => return Ok(None),
        Some(c) => c,
    };
    let t = match template_table(c) {
        Err(e) => return Err(e),
        Ok(None) => return Ok(None),
        Ok(Some(t)) => t,
    };
    let e = match entry_with_key_exec(&t, key.as_str()) {
        None => return Ok(None),
        Some(e) => e,
    };
    let owned_norm = normalized_output_with(owned.as_str(), config_dir, home);
    let mut owns = uses_input_exec(e, owned_norm.as_str(), config_dir, home, Ghost(owned@));
    if owns {
        let ghost tv = templates_view(t@);
        let mut j: usize = 0;
        while j < t.len()
            invariant
                j <= t.len(),
                tv == templates_view(t@),
                owned_norm@ == normalized_output_of(owned@, config_dir@, opt_str(home)),
                owns ==> forall|k: int|
                    0 <= k < j && #[trigger] tv[k].key != key@ ==> !uses_input(
                        tv[k],
                        owned@,
                        config_dir@,
                        opt_str(home),
                    ),
                !owns ==> exists|k: int|
                    0 <= k < j && #[trigger] tv[k].key != key@ && uses_input(
                        tv[k],
                        owned@,
                        config_dir@,
                        opt_str(home),
                    ),
            decreases t.len() - j,
        {
            assert(tv[j as int] == t@[j as int]@);
            if !str_eq(t[j].key.as_str(), key.as_str()) && uses_input_exec(
                &t[j],
                owned_norm.as_str(),
                config_dir,
                home,
                Ghost(owned@),
            ) {
                assert(tv[j as int].key != key@ && uses_input(tv[j as int], owned@, config_dir@, opt_str(home)));
                owns = false;
            }
            j = j + 1;
        }
    }
    let nc = match without_section(c, key.as_str()) {
        Err(m) => return Err(m),
        Ok(nc) => nc,
    };
    Ok(Some(UninstallPlan { config_content: nc, owned_input: if owns { Some(owned) } else { None } }))
}


/// `install_template`'s first check: the output path, trimmed, may not be empty.
pub fn checked_output_path(output_path: &str) -> (r: Result<String, String>)
    ensures
        r matches Ok(p) ==> text::trim(output_path@).len() > 0 && p@ == text::trim(output_path@),
        r matches Err(e) ==> text::trim(output_path@).len() == 0 && e@
            == "Output path cannot be empty for this template"@,
{
    let t = text::trim_exec(&text::chars_of(output_path));
    if t.len() == 0 {
        Err(String::from_str("Output path cannot be empty for this template"))
    } else {
        Ok(text::string_of(&t))
    }
}

} // verus!
