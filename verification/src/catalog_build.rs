//! Building the template catalog: the applications that the curated catalog
//! metadata describes, then every bundled template it leaves out, ordered by
//! category and name.
use vstd::prelude::*;
use crate::catalog::{
    CatalogPaths, PathsView, TemplateCatalogApp, TemplateCatalogVariant, TemplateSource, TemplateTarget,
    bundled_source, bundled_source_path, catalog_slug, catalog_slug_of, legacy_path_of, normalized_category,
    normalized_category_of, resolve_catalog_legacy_path, resolve_of,
};
use crate::context::{opt_view, str_eq};
use crate::path;
use crate::template_meta::{InfoView, TemplateInfo, copy_opt, copy_strings, strings_view};
use crate::text;
use crate::wallpaper::{text_lt, text_lt_exec};

verus! {

/// The curated catalog metadata.
#[derive(Debug)]
pub struct CatalogMetadata {
    pub applications: Vec<CatalogMetadataApp>,
}

#[derive(Debug)]
pub struct CatalogMetadataApp {
    pub id: String,
    pub name: String,
    pub category: String,
    pub variants: Vec<CatalogMetadataVariant>,
}

#[derive(Debug)]
pub struct CatalogMetadataVariant {
    pub id: String,
    pub name: String,
    pub source_path: String,
    pub description: Option<String>,
    pub source: Option<CatalogMetadataSource>,
    pub automation_level: Option<String>,
    pub manual_steps: Option<Vec<String>>,
    pub targets: Vec<CatalogMetadataTarget>,
}

#[derive(Debug)]
pub struct CatalogMetadataTarget {
    pub id: String,
    pub label: String,
    pub install_type: String,
    pub source_path: Option<String>,
    pub output_path: String,
    pub detect_path: Option<String>,
}

#[derive(Debug)]
pub struct CatalogMetadataSource {
    pub kind: String,
    pub name: String,
    pub repository: Option<String>,
    pub author: Option<String>,
    pub license: Option<String>,
    pub license_status: Option<String>,
    pub attribution: Option<String>,
    pub upstream_commit: Option<String>,
    pub version: Option<String>,
}

// ── Views of the catalog ─────────────────────────────────────────────────────

pub struct TargetView {
    pub id: Seq<char>,
    pub label: Seq<char>,
    pub install_type: Seq<char>,
    pub input_path: Seq<char>,
    pub output_path: Seq<char>,
    pub detected: bool,
}

pub struct SourceView {
    pub kind: Seq<char>,
    pub name: Seq<char>,
    pub repository: Option<Seq<char>>,
    pub author: Option<Seq<char>>,
    pub license: Option<Seq<char>>,
    pub license_status: Option<Seq<char>>,
    pub source_path: Option<Seq<char>>,
    pub upstream_commit: Option<Seq<char>>,
    pub version: Option<Seq<char>>,
    pub attribution: Option<Seq<char>>,
}

pub struct VariantView {
    pub id: Seq<char>,
    pub name: Seq<char>,
    pub description: Option<Seq<char>>,
    pub source: SourceView,
    pub targets: Seq<TargetView>,
    pub template: InfoView,
}

pub struct AppView {
    pub id: Seq<char>,
    pub name: Seq<char>,
    pub category: Seq<char>,
    pub variants: Seq<VariantView>,
}

impl View for TemplateTarget {
    type V = TargetView;

    open spec fn view(&self) -> TargetView {
        TargetView {
            id: self.id@,
            label: self.label@,
            install_type: self.install_type@,
            input_path: self.input_path@,
            output_path: self.output_path@,
            detected: self.detected,
        }
    }
}

impl View for TemplateSource {
    type V = SourceView;

    open spec fn view(&self) -> SourceView {
        SourceView {
            kind: self.kind@,
            name: self.name@,
            repository: opt_view(self.repository),
            author: opt_view(self.author),
            license: opt_view(self.license),
            license_status: opt_view(self.license_status),
            source_path: opt_view(self.source_path),
            upstream_commit: opt_view(self.upstream_commit),
            version: opt_view(self.version),
            attribution: opt_view(self.attribution),
        }
    }
}

pub open spec fn targets_view(v: Seq<TemplateTarget>) -> Seq<TargetView> {
    v.map_values(|t: TemplateTarget| t@)
}

impl View for TemplateCatalogVariant {
    type V = VariantView;

    open spec fn view(&self) -> VariantView {
        VariantView {
            id: self.id@,
            name: self.name@,
            description: opt_view(self.description),
            source: self.source@,
            targets: targets_view(self.targets@),
            template: self.template@,
        }
    }
}

pub open spec fn variants_view(v: Seq<TemplateCatalogVariant>) -> Seq<VariantView> {
    v.map_values(|x: TemplateCatalogVariant| x@)
}

impl View for TemplateCatalogApp {
    type V = AppView;

    open spec fn view(&self) -> AppView {
        AppView { id: self.id@, name: self.name@, category: self.category@, variants: variants_view(self.variants@) }
    }
}

pub open spec fn apps_view(v: Seq<TemplateCatalogApp>) -> Seq<AppView> {
    v.map_values(|a: TemplateCatalogApp| a@)
}

// ── Curated entries ──────────────────────────────────────────────────────────

/// The template listed under a relative path (the last one, where several are).
pub open spec fn by_path(ts: Seq<TemplateInfo>, rel: Seq<char>) -> Option<TemplateInfo>
    decreases ts.len(),
{
    if ts.len() == 0 {
        None
    } else if ts.last().relative_path@ == rel {
        Some(ts.last())
    } else {
        by_path(ts.drop_last(), rel)
    }
}

fn by_path_exec<'a>(ts: &'a Vec<TemplateInfo>, rel: &str) -> (r: Option<&'a TemplateInfo>)
    ensures
        r matches Some(t) ==> by_path(ts@, rel@) == Some(*t),
        r is None ==> by_path(ts@, rel@) is None,
{
    let mut i: usize = ts.len();
    assert(ts@.take(i as int) =~= ts@);
    while i > 0
        invariant
            i <= ts.len(),
            by_path(ts@, rel@) == by_path(ts@.take(i as int), rel@),
        decreases i,
    {
        assert(ts@.take(i as int).last() == ts@[i - 1]);
        assert(ts@.take(i as int).drop_last() =~= ts@.take(i - 1));
        if str_eq(ts[i - 1].relative_path.as_str(), rel) {
            return Some(&ts[i - 1]);
        }
        i = i - 1;
    }
    None
}

/// Some string of the list is `s`.
pub open spec fn listed(v: Seq<String>, s: Seq<char>) -> bool {
    exists|i: int| 0 <= i < v.len() && #[trigger] v[i]@ == s
}

fn listed_exec(v: &Vec<String>, s: &str) -> (r: bool)
    ensures
        r == listed(v@, s@),
{
    let mut i: usize = 0;
    while i < v.len()
        invariant
            i <= v.len(),
            forall|k: int| 0 <= k < i ==> #[trigger] v@[k]@ != s@,
        decreases v.len() - i,
    {
        if str_eq(v[i].as_str(), s) {
            assert(v@[i as int]@ == s@);
            return true;
        }
        i = i + 1;
    }
    false
}

/// What a step of the build adds: entries, the relative paths it used, and
/// the paths whose existence it consulted.
pub type Built<T> = (Seq<T>, Seq<Seq<char>>, Seq<Seq<char>>);

pub open spec fn prepend<T>(first: (Seq<T>, Seq<Seq<char>>, Seq<Seq<char>>), r: Result<Built<T>, Seq<char>>) -> Result<
    Built<T>,
    Seq<char>,
> {
    match r {
        Err(e) => Err(e),
        Ok((a, b, c)) => Ok((first.0 + a, first.1 + b, first.2 + c)),
    }
}

pub proof fn lemma_prepend_twice<T>(
    a: (Seq<T>, Seq<Seq<char>>, Seq<Seq<char>>),
    b: (Seq<T>, Seq<Seq<char>>, Seq<Seq<char>>),
    r: Result<Built<T>, Seq<char>>,
)
    ensures
        prepend(a, prepend(b, r)) == prepend((a.0 + b.0, a.1 + b.1, a.2 + b.2), r),
{
    match r {
        Err(e) => {},
        Ok((x, y, z)) => {
            assert(a.0 + (b.0 + x) =~= (a.0 + b.0) + x);
            assert(a.1 + (b.1 + y) =~= (a.1 + b.1) + y);
            assert(a.2 + (b.2 + z) =~= (a.2 + b.2) + z);
        },
    }
}

/// The path whose existence marks a target as detected: its `detect_path`
/// resolved, else its output.
pub open spec fn probe_of(t: CatalogMetadataTarget, output: Seq<char>, p: PathsView) -> Result<Seq<char>, Seq<char>> {
    match t.detect_path {
        Some(d) => resolve_of(p, d@),
        None => Ok(output),
    }
}

/// The targets of a curated variant that have their template file, in order;
/// the first path that does not resolve is the error.
pub open spec fn targets_of(
    mts: Seq<CatalogMetadataTarget>,
    variant_source: Seq<char>,
    ts: Seq<TemplateInfo>,
    p: PathsView,
    existing: Seq<String>,
) -> Result<Built<TargetView>, Seq<char>>
    decreases mts.len(),
{
    if mts.len() == 0 {
        Ok((Seq::empty(), Seq::empty(), Seq::empty()))
    } else {
        let t = mts[0];
        let sp = match t.source_path {
            Some(s) => s@,
            None => variant_source,
        };
        match by_path(ts, sp) {
            None => targets_of(mts.drop_first(), variant_source, ts, p, existing),
            Some(input) => match resolve_of(p, t.output_path@) {
                Err(e) => Err(e),
                Ok(out) => match probe_of(t, out, p) {
                    Err(e) => Err(e),
                    Ok(probe) => prepend(
                        (
                            seq![
                                TargetView {
                                    id: t.id@,
                                    label: t.label@,
                                    install_type: t.install_type@,
                                    input_path: input.path@,
                                    output_path: out,
                                    detected: listed(existing, probe),
                                },
                            ],
                            seq![sp],
                            seq![probe],
                        ),
                        targets_of(mts.drop_first(), variant_source, ts, p, existing),
                    ),
                },
            },
        }
    }
}

fn targets_exec(
    mts: &Vec<CatalogMetadataTarget>,
    variant_source: &str,
    ts: &Vec<TemplateInfo>,
    paths: &CatalogPaths,
    existing: &Vec<String>,
) -> (r: Result<(Vec<TemplateTarget>, Vec<String>, Vec<String>), String>)
    ensures
        match r {
            Ok((a, b, c)) => targets_of(mts@, variant_source@, ts@, paths@, existing@) == Ok::<
                Built<TargetView>,
                Seq<char>,
            >((targets_view(a@), strings_view(b@), strings_view(c@))),
            Err(e) => targets_of(mts@, variant_source@, ts@, paths@, existing@) == Err::<
                Built<TargetView>,
                Seq<char>,
            >(e@),
        },
{
    let mut out: Vec<TemplateTarget> = Vec::new();
    let mut used: Vec<String> = Vec::new();
    let mut probes: Vec<String> = Vec::new();
    let mut i: usize = 0;
    assert(mts@.skip(0) =~= mts@);
    assert(targets_view(out@) =~= Seq::<TargetView>::empty());
    assert(strings_view(used@) =~= Seq::<Seq<char>>::empty());
    assert(strings_view(probes@) =~= Seq::<Seq<char>>::empty());
    while i < mts.len()
        invariant
            i <= mts.len(),
            targets_of(mts@, variant_source@, ts@, paths@, existing@) == prepend(
                (targets_view(out@), strings_view(used@), strings_view(probes@)),
                targets_of(mts@.skip(i as int), variant_source@, ts@, paths@, existing@),
            ),
        decreases mts.len() - i,
    {
        assert(mts@.skip(i as int)[0] == mts@[i as int]);
        assert(mts@.skip(i as int).drop_first() =~= mts@.skip(i + 1));
        let t = &mts[i];
        let sp: &str = match &t.source_path {
            Some(s) => s.as_str(),
            None => variant_source,
        };
        match by_path_exec(ts, sp) {
            None => {},
            Some(input) => {
                let o = match paths.resolve(t.output_path.as_str()) {
                    Ok(o) => o,
                    Err(e) => return Err(e),
                };
                let probe = match &t.detect_path {
                    Some(d) => match paths.resolve(d.as_str()) {
                        Ok(x) => x,
                        Err(e) => return Err(e),
                    },
                    None => o.clone(),
                };
                let detected = listed_exec(existing, probe.as_str());
                let ghost (o1, o2, o3) = (targets_view(out@), strings_view(used@), strings_view(probes@));
                let ghost tv = TargetView {
                    id: t.id@,
                    label: t.label@,
                    install_type: t.install_type@,
                    input_path: input.path@,
                    output_path: o@,
                    detected: listed(existing@, probe@),
                };
                proof {
                    lemma_prepend_twice(
                        (o1, o2, o3),
                        (seq![tv], seq![sp@], seq![probe@]),
                        targets_of(mts@.skip(i + 1), variant_source@, ts@, paths@, existing@),
                    );
                }
                out.push(
                    TemplateTarget {
                        id: t.id.clone(),
                        label: t.label.clone(),
                        install_type: t.install_type.clone(),
                        input_path: input.path.clone(),
                        output_path: o,
                        detected,
                    },
                );
                used.push(String::from_str(sp));
                probes.push(probe);
                assert(targets_view(out@) =~= o1 + seq![tv]);
                assert(strings_view(used@) =~= o2 + seq![sp@]);
                assert(strings_view(probes@) =~= o3 + seq![probe@]);
            },
        }
        i = i + 1;
    }
    assert(mts@.skip(mts.len() as int) =~= Seq::<CatalogMetadataTarget>::empty());
    Ok((out, used, probes))
}

/// `bundled_source` as a view.
pub open spec fn bundled_source_view(relative_path: Seq<char>) -> SourceView {
    SourceView {
        kind: "official"@,
        name: "matugen-themes"@,
        repository: Some("https://github.com/InioX/matugen-themes"@),
        author: None,
        license: Some("MIT"@),
        license_status: Some("repository-declared"@),
        source_path: Some(bundled_source_path(relative_path)),
        upstream_commit: None,
        version: None,
        attribution: None,
    }
}

/// The source of a curated variant: as the metadata gives it (only the kinds
/// `official` and `community`), else the bundled repository.
pub open spec fn source_of(v: CatalogMetadataVariant) -> Result<SourceView, Seq<char>> {
    match v.source {
        Some(m) => if m.kind@ != "official"@ && m.kind@ != "community"@ {
            Err("Invalid source kind for "@ + v.id@)
        } else {
            Ok(
                SourceView {
                    kind: m.kind@,
                    name: m.name@,
                    repository: opt_view(m.repository),
                    author: opt_view(m.author),
                    license: opt_view(m.license),
                    license_status: opt_view(m.license_status),
                    source_path: Some("templates/"@ + v.source_path@),
                    upstream_commit: opt_view(m.upstream_commit),
                    version: opt_view(m.version),
                    attribution: opt_view(m.attribution),
                },
            )
        },
        None => Ok(bundled_source_view(v.source_path@)),
    }
}

fn source_exec(v: &CatalogMetadataVariant) -> (r: Result<TemplateSource, String>)
    ensures
        match r {
            Ok(s) => source_of(*v) == Ok::<SourceView, Seq<char>>(s@),
            Err(e) => source_of(*v) == Err::<SourceView, Seq<char>>(e@),
        },
{
    match &v.source {
        Some(m) => {
            if !str_eq(m.kind.as_str(), "official") && !str_eq(m.kind.as_str(), "community") {
                let mut msg = text::chars_of("Invalid source kind for ");
                text::push_str(&mut msg, v.id.as_str());
                return Err(text::string_of(&msg));
            }
            let mut sp = text::chars_of("templates/");
            text::push_str(&mut sp, v.source_path.as_str());
            Ok(
                TemplateSource {
                    kind: m.kind.clone(),
                    name: m.name.clone(),
                    repository: copy_opt(&m.repository),
                    author: copy_opt(&m.author),
                    license: copy_opt(&m.license),
                    license_status: copy_opt(&m.license_status),
                    source_path: Some(text::string_of(&sp)),
                    upstream_commit: copy_opt(&m.upstream_commit),
                    version: copy_opt(&m.version),
                    attribution: copy_opt(&m.attribution),
                },
            )
        },
        None => Ok(bundled_source(v.source_path.as_str())),
    }
}

/// Every manual step is an i18n key under `templates.steps.`.
pub open spec fn steps_valid(steps: Seq<String>) -> bool {
    forall|i: int| 0 <= i < steps.len() ==> text::starts_with(#[trigger] steps[i]@, "templates.steps."@)
}

/// The automation level a variant sets, checked, else the template's own.
pub open spec fn level_of(v: CatalogMetadataVariant, own: Seq<char>) -> Result<Seq<char>, Seq<char>> {
    match v.automation_level {
        Some(l) => if l@ == "auto"@ || l@ == "config-patch"@ || l@ == "manual"@ {
            Ok(l@)
        } else {
            Err("Invalid automation level for "@ + v.id@)
        },
        None => Ok(own),
    }
}

/// The manual steps a variant sets, checked, else the template's own.
pub open spec fn steps_of(v: CatalogMetadataVariant, own: Seq<Seq<char>>) -> Result<Seq<Seq<char>>, Seq<char>> {
    match v.manual_steps {
        Some(st) => if steps_valid(st@) {
            Ok(strings_view(st@))
        } else {
            Err("Invalid manual step for "@ + v.id@)
        },
        None => Ok(own),
    }
}

/// The template of a curated variant: filed under the application, with the
/// variant's automation level and manual steps where it sets them.
pub open spec fn curated_template(app: CatalogMetadataApp, v: CatalogMetadataVariant, t: InfoView) -> Result<
    InfoView,
    Seq<char>,
> {
    match level_of(v, t.automation_level) {
        Err(e) => Err(e),
        Ok(level) => match steps_of(v, t.manual_steps) {
            Err(e) => Err(e),
            Ok(steps) => Ok(
                InfoView {
                    name: t.name,
                    display_name: t.display_name,
                    path: t.path,
                    relative_path: t.relative_path,
                    size: t.size,
                    category: normalized_category_of(app.category@, app.name@),
                    target_app: app.name@,
                    automation_level: level,
                    installable: t.installable,
                    default_output_path: t.default_output_path,
                    default_post_hook: t.default_post_hook,
                    required_commands: t.required_commands,
                    manual_steps: steps,
                    related_files: t.related_files,
                },
            ),
        },
    }
}

fn curated_template_exec(app: &CatalogMetadataApp, v: &CatalogMetadataVariant, t: &TemplateInfo) -> (r: Result<
    TemplateInfo,
    String,
>)
    ensures
        match r {
            Ok(x) => curated_template(*app, *v, t@) == Ok::<InfoView, Seq<char>>(x@),
            Err(e) => curated_template(*app, *v, t@) == Err::<InfoView, Seq<char>>(e@),
        },
{
    let mut x = t.copy();
    x.target_app = app.name.clone();
    x.category = String::from_str(normalized_category(app.category.as_str(), app.name.as_str()));
    if let Some(level) = &v.automation_level {
        let l = level.as_str();
        if !str_eq(l, "auto") && !str_eq(l, "config-patch") && !str_eq(l, "manual") {
            let mut msg = text::chars_of("Invalid automation level for ");
            text::push_str(&mut msg, v.id.as_str());
            return Err(text::string_of(&msg));
        }
        x.automation_level = level.clone();
    }
    if let Some(steps) = &v.manual_steps {
        let mut i: usize = 0;
        while i < steps.len()
            invariant
                i <= steps.len(),
                level_of(*v, t@.automation_level) is Ok,
                v.manual_steps == Some(*steps),
                forall|k: int| 0 <= k < i ==> text::starts_with(#[trigger] steps@[k]@, "templates.steps."@),
            decreases steps.len() - i,
        {
            if !text::starts_with_str(&text::chars_of(steps[i].as_str()), "templates.steps.") {
                assert(!steps_valid(steps@)) by {
                    assert(!text::starts_with(steps@[i as int]@, "templates.steps."@));
                }
                let mut msg = text::chars_of("Invalid manual step for ");
                text::push_str(&mut msg, v.id.as_str());
                return Err(text::string_of(&msg));
            }
            i = i + 1;
        }
        x.manual_steps = copy_strings(steps);
    }
    Ok(x)
}

/// A curated variant: `None` where its template file or all its targets'
/// files are missing.
pub open spec fn variant_of(
    app: CatalogMetadataApp,
    v: CatalogMetadataVariant,
    ts: Seq<TemplateInfo>,
    p: PathsView,
    existing: Seq<String>,
) -> Result<Option<(VariantView, Seq<Seq<char>>, Seq<Seq<char>>)>, Seq<char>> {
    match by_path(ts, v.source_path@) {
        None => Ok(None),
        Some(tpl) => match targets_of(v.targets@, v.source_path@, ts, p, existing) {
            Err(e) => Err(e),
            Ok((targets, used, probes)) => if targets.len() == 0 {
                Ok(None)
            } else {
                match source_of(v) {
                    Err(e) => Err(e),
                    Ok(src) => match curated_template(app, v, tpl@) {
                        Err(e) => Err(e),
                        Ok(info) => Ok(
                            Some(
                                (
                                    VariantView {
                                        id: v.id@,
                                        name: v.name@,
                                        description: opt_view(v.description),
                                        source: src,
                                        targets,
                                        template: info,
                                    },
                                    used.push(v.source_path@),
                                    probes,
                                ),
                            ),
                        ),
                    },
                }
            },
        },
    }
}

fn variant_exec(
    app: &CatalogMetadataApp,
    v: &CatalogMetadataVariant,
    ts: &Vec<TemplateInfo>,
    paths: &CatalogPaths,
    existing: &Vec<String>,
) -> (r: Result<Option<(TemplateCatalogVariant, Vec<String>, Vec<String>)>, String>)
    ensures
        match r {
            Ok(Some((x, u, pr))) => variant_of(*app, *v, ts@, paths@, existing@) == Ok::<
                Option<(VariantView, Seq<Seq<char>>, Seq<Seq<char>>)>,
                Seq<char>,
            >(Some((x@, strings_view(u@), strings_view(pr@)))),
            Ok(None) => variant_of(*app, *v, ts@, paths@, existing@) == Ok::<
                Option<(VariantView, Seq<Seq<char>>, Seq<Seq<char>>)>,
                Seq<char>,
            >(None),
            Err(e) => variant_of(*app, *v, ts@, paths@, existing@) == Err::<
                Option<(VariantView, Seq<Seq<char>>, Seq<Seq<char>>)>,
                Seq<char>,
            >(e@),
        },
{
    let tpl = match by_path_exec(ts, v.source_path.as_str()) {
        None => return Ok(None),
        Some(t) => t,
    };
    let (targets, mut used, probes) = match targets_exec(&v.targets, v.source_path.as_str(), ts, paths, existing) {
        Err(e) => return Err(e),
        Ok(x) => x,
    };
    if targets.len() == 0 {
        return Ok(None);
    }
    let source = match source_exec(v) {
        Err(e) => return Err(e),
        Ok(s) => s,
    };
    let template = match curated_template_exec(app, v, tpl) {
        Err(e) => return Err(e),
        Ok(t) => t,
    };
    let ghost u0 = strings_view(used@);
    used.push(v.source_path.clone());
    assert(strings_view(used@) =~= u0.push(v.source_path@));
    Ok(
        Some(
            (
                TemplateCatalogVariant {
                    id: v.id.clone(),
                    name: v.name.clone(),
                    description: copy_opt(&v.description),
                    source,
                    targets,
                    template,
                },
                used,
                probes,
            ),
        ),
    )
}

/// The variants of a curated application that are listed, in order.
pub open spec fn app_variants_of(
    app: CatalogMetadataApp,
    vs: Seq<CatalogMetadataVariant>,
    ts: Seq<TemplateInfo>,
    p: PathsView,
    existing: Seq<String>,
) -> Result<Built<VariantView>, Seq<char>>
    decreases vs.len(),
{
    if vs.len() == 0 {
        Ok((Seq::empty(), Seq::empty(), Seq::empty()))
    } else {
        match variant_of(app, vs[0], ts, p, existing) {
            Err(e) => Err(e),
            Ok(None) => app_variants_of(app, vs.drop_first(), ts, p, existing),
            Ok(Some((x, u, pr))) => prepend((seq![x], u, pr), app_variants_of(app, vs.drop_first(), ts, p, existing)),
        }
    }
}

fn app_variants_exec(
    app: &CatalogMetadataApp,
    ts: &Vec<TemplateInfo>,
    paths: &CatalogPaths,
    existing: &Vec<String>,
) -> (r: Result<(Vec<TemplateCatalogVariant>, Vec<String>, Vec<String>), String>)
    ensures
        match r {
            Ok((a, b, c)) => app_variants_of(*app, app.variants@, ts@, paths@, existing@) == Ok::<
                Built<VariantView>,
                Seq<char>,
            >((variants_view(a@), strings_view(b@), strings_view(c@))),
            Err(e) => app_variants_of(*app, app.variants@, ts@, paths@, existing@) == Err::<
                Built<VariantView>,
                Seq<char>,
            >(e@),
        },
{
    let vs = &app.variants;
    let mut out: Vec<TemplateCatalogVariant> = Vec::new();
    let mut used: Vec<String> = Vec::new();
    let mut probes: Vec<String> = Vec::new();
    let mut i: usize = 0;
    assert(vs@.skip(0) =~= vs@);
    assert(variants_view(out@) =~= Seq::<VariantView>::empty());
    assert(strings_view(used@) =~= Seq::<Seq<char>>::empty());
    assert(strings_view(probes@) =~= Seq::<Seq<char>>::empty());
    while i < vs.len()
        invariant
            i <= vs.len(),
            vs == &app.variants,
            app_variants_of(*app, vs@, ts@, paths@, existing@) == prepend(
                (variants_view(out@), strings_view(used@), strings_view(probes@)),
                app_variants_of(*app, vs@.skip(i as int), ts@, paths@, existing@),
            ),
        decreases vs.len() - i,
    {
        assert(vs@.skip(i as int)[0] == vs@[i as int]);
        assert(vs@.skip(i as int).drop_first() =~= vs@.skip(i + 1));
        match variant_exec(app, &vs[i], ts, paths, existing) {
            Err(e) => return Err(e),
            Ok(None) => {},
            Ok(Some((x, u, pr))) => {
                let ghost (o1, o2, o3) = (variants_view(out@), strings_view(used@), strings_view(probes@));
                let ghost (xv, uv, pv) = (x@, strings_view(u@), strings_view(pr@));
                proof {
                    lemma_prepend_twice(
                        (o1, o2, o3),
                        (seq![xv], uv, pv),
                        app_variants_of(*app, vs@.skip(i + 1), ts@, paths@, existing@),
                    );
                }
                out.push(x);
                let mut u = u;
                let mut pr = pr;
                used.append(&mut u);
                probes.append(&mut pr);
                assert(variants_view(out@) =~= o1 + seq![xv]);
                assert(strings_view(used@) =~= o2 + uv);
                assert(strings_view(probes@) =~= o3 + pv);
            },
        }
        i = i + 1;
    }
    assert(vs@.skip(vs.len() as int) =~= Seq::<CatalogMetadataVariant>::empty());
    Ok((out, used, probes))
}

/// The curated applications that have a listed variant, in the metadata's order.
pub open spec fn curated_of(
    apps: Seq<CatalogMetadataApp>,
    ts: Seq<TemplateInfo>,
    p: PathsView,
    existing: Seq<String>,
) -> Result<Built<AppView>, Seq<char>>
    decreases apps.len(),
{
    if apps.len() == 0 {
        Ok((Seq::empty(), Seq::empty(), Seq::empty()))
    } else {
        let a = apps[0];
        match app_variants_of(a, a.variants@, ts, p, existing) {
            Err(e) => Err(e),
            Ok((vv, u, pr)) => prepend(
                (
                    if vv.len() > 0 {
                        seq![
                            AppView {
                                id: a.id@,
                                name: a.name@,
                                category: normalized_category_of(a.category@, a.name@),
                                variants: vv,
                            },
                        ]
                    } else {
                        Seq::empty()
                    },
                    u,
                    pr,
                ),
                curated_of(apps.drop_first(), ts, p, existing),
            ),
        }
    }
}

fn curated_exec(
    apps: &Vec<CatalogMetadataApp>,
    ts: &Vec<TemplateInfo>,
    paths: &CatalogPaths,
    existing: &Vec<String>,
) -> (r: Result<(Vec<TemplateCatalogApp>, Vec<String>, Vec<String>), String>)
    ensures
        match r {
            Ok((a, b, c)) => curated_of(apps@, ts@, paths@, existing@) == Ok::<Built<AppView>, Seq<char>>(
                (apps_view(a@), strings_view(b@), strings_view(c@)),
            ),
            Err(e) => curated_of(apps@, ts@, paths@, existing@) == Err::<Built<AppView>, Seq<char>>(e@),
        },
{
    let mut out: Vec<TemplateCatalogApp> = Vec::new();
    let mut used: Vec<String> = Vec::new();
    let mut probes: Vec<String> = Vec::new();
    let mut i: usize = 0;
    assert(apps@.skip(0) =~= apps@);
    assert(apps_view(out@) =~= Seq::<AppView>::empty());
    assert(strings_view(used@) =~= Seq::<Seq<char>>::empty());
    assert(strings_view(probes@) =~= Seq::<Seq<char>>::empty());
    while i < apps.len()
        invariant
            i <= apps.len(),
            curated_of(apps@, ts@, paths@, existing@) == prepend(
                (apps_view(out@), strings_view(used@), strings_view(probes@)),
                curated_of(apps@.skip(i as int), ts@, paths@, existing@),
            ),
        decreases apps.len() - i,
    {
        assert(apps@.skip(i as int)[0] == apps@[i as int]);
        assert(apps@.skip(i as int).drop_first() =~= apps@.skip(i + 1));
        let a = &apps[i];
        let (vv, u, pr) = match app_variants_exec(a, ts, paths, existing) {
            Err(e) => return Err(e),
            Ok(x) => x,
        };
        let ghost (o1, o2, o3) = (apps_view(out@), strings_view(used@), strings_view(probes@));
        let ghost (uv, pv) = (strings_view(u@), strings_view(pr@));
        let ghost first: Seq<AppView> = if vv@.len() > 0 {
            seq![
                AppView {
                    id: a.id@,
                    name: a.name@,
                    category: normalized_category_of(a.category@, a.name@),
                    variants: variants_view(vv@),
                },
            ]
        } else {
            Seq::empty()
        };
        proof {
            lemma_prepend_twice((o1, o2, o3), (first, uv, pv), curated_of(apps@.skip(i + 1), ts@, paths@, existing@));
        }
        if vv.len() > 0 {
            out.push(
                TemplateCatalogApp {
                    id: a.id.clone(),
                    name: a.name.clone(),
                    category: String::from_str(normalized_category(a.category.as_str(), a.name.as_str())),
                    variants: vv,
                },
            );
        }
        let mut u = u;
        let mut pr = pr;
        used.append(&mut u);
        probes.append(&mut pr);
        assert(apps_view(out@) =~= o1 + first);
        assert(strings_view(used@) =~= o2 + uv);
        assert(strings_view(probes@) =~= o3 + pv);
        i = i + 1;
    }
    assert(apps@.skip(apps.len() as int) =~= Seq::<CatalogMetadataApp>::empty());
    Ok((out, used, probes))
}

// ── Templates the metadata leaves out ────────────────────────────────────────

/// The index of the first application with the name.
pub open spec fn app_index(apps: Seq<AppView>, name: Seq<char>) -> Option<int>
    decreases apps.len(),
{
    if apps.len() == 0 {
        None
    } else if apps[0].name == name {
        Some(0)
    } else {
        match app_index(apps.drop_first(), name) {
            Some(i) => Some(i + 1),
            None => None,
        }
    }
}

proof fn lemma_app_index(apps: Seq<AppView>, name: Seq<char>, i: int)
    requires
        0 <= i <= apps.len(),
        forall|k: int| 0 <= k < i ==> #[trigger] apps[k].name != name,
        i < apps.len() ==> apps[i].name == name,
    ensures
        app_index(apps, name) == (if i < apps.len() {
            Some(i)
        } else {
            None::<int>
        }),
    decreases i,
{
    if i > 0 {
        assert(apps[0].name != name);
        assert forall|k: int| 0 <= k < i - 1 implies #[trigger] apps.drop_first()[k].name != name by {
            assert(apps.drop_first()[k] == apps[k + 1]);
        }
        lemma_app_index(apps.drop_first(), name, i - 1);
    }
}

fn app_index_exec(apps: &Vec<TemplateCatalogApp>, name: &str) -> (r: Option<usize>)
    ensures
        r matches Some(i) ==> i < apps.len() && app_index(apps_view(apps@), name@) == Some(i as int),
        r is None ==> app_index(apps_view(apps@), name@) is None,
{
    let ghost av = apps_view(apps@);
    let mut i: usize = 0;
    while i < apps.len()
        invariant
            i <= apps.len(),
            av == apps_view(apps@),
            forall|k: int| 0 <= k < i ==> #[trigger] av[k].name != name@,
        decreases apps.len() - i,
    {
        assert(av[i as int] == apps@[i as int]@);
        if str_eq(apps[i].name.as_str(), name) {
            proof {
                lemma_app_index(av, name@, i as int);
            }
            return Some(i);
        }
        i = i + 1;
    }
    proof {
        lemma_app_index(av, name@, i as int);
    }
    None
}

/// Where a template the metadata leaves out is installed by default: its
/// default output under the user folders, else a file named after its
/// relative path in matugen's cache.
pub open spec fn discovered_output(t: TemplateInfo, p: PathsView) -> Seq<char> {
    match t.default_output_path {
        Some(d) => legacy_path_of(p, d@),
        None => path::join(
            path::join(p.cache, "matugen/templates"@),
            text::replace_all(t.relative_path@, "/"@, "-"@),
        ),
    }
}

fn discovered_output_exec(t: &TemplateInfo, paths: &CatalogPaths) -> (r: String)
    ensures
        r@ == discovered_output(*t, paths@),
{
    match &t.default_output_path {
        Some(d) => match resolve_catalog_legacy_path(paths, d.as_str()) {
            Ok(p) => p,
            Err(e) => e,
        },
        None => {
            let base = path::join_exec(paths.cache.as_str(), "matugen/templates");
            let rel = text::chars_of(t.relative_path.as_str());
            let flat = text::replace_exec(&rel, &text::chars_of("/"), &text::chars_of("-"));
            path::join_exec(base.as_str(), text::string_of(&flat).as_str())
        },
    }
}

/// The variant listing a template the metadata leaves out, under the
/// application `app_id`.
pub open spec fn discovered_variant(app_id: Seq<char>, t: TemplateInfo, p: PathsView, existing: Seq<String>) -> VariantView {
    let out = discovered_output(t, p);
    VariantView {
        id: app_id + "-"@ + catalog_slug_of(t.relative_path@),
        name: t.display_name@,
        description: None,
        source: bundled_source_view(t.relative_path@),
        targets: seq![
            TargetView {
                id: "default"@,
                label: "Default"@,
                install_type: if t.installable {
                    "native"@
                } else {
                    "manual"@
                },
                input_path: t.path@,
                output_path: out,
                detected: listed(existing, out),
            },
        ],
        template: t@,
    }
}

/// The catalog with one template added to its application's variants, the
/// application added (after the others) where it is not listed yet.
pub open spec fn discover_step(apps: Seq<AppView>, t: TemplateInfo, p: PathsView, existing: Seq<String>) -> Seq<
    AppView,
> {
    let name = t.target_app@;
    let base = match app_index(apps, name) {
        Some(_) => apps,
        None => apps.push(
            AppView {
                id: catalog_slug_of(name),
                name,
                category: normalized_category_of(t.category@, name),
                variants: Seq::empty(),
            },
        ),
    };
    let idx = match app_index(apps, name) {
        Some(i) => i,
        None => apps.len() as int,
    };
    let a = base[idx];
    base.update(
        idx,
        AppView {
            id: a.id,
            name: a.name,
            category: a.category,
            variants: a.variants.push(discovered_variant(a.id, t, p, existing)),
        },
    )
}

/// Every template whose relative path the curated entries did not use, in
/// the templates' order; and the default outputs consulted.
pub open spec fn discovered_of(
    apps: Seq<AppView>,
    ts: Seq<TemplateInfo>,
    used: Seq<Seq<char>>,
    p: PathsView,
    existing: Seq<String>,
) -> (Seq<AppView>, Seq<Seq<char>>)
    decreases ts.len(),
{
    if ts.len() == 0 {
        (apps, Seq::empty())
    } else {
        let (a, pr) = discovered_of(apps, ts.drop_last(), used, p, existing);
        let t = ts.last();
        if used.contains(t.relative_path@) {
            (a, pr)
        } else {
            (discover_step(a, t, p, existing), pr.push(discovered_output(t, p)))
        }
    }
}

fn used_exec(v: &Vec<String>, s: &str) -> (r: bool)
    ensures
        r == strings_view(v@).contains(s@),
{
    let r = listed_exec(v, s);
    proof {
        if r {
            let i = choose|i: int| 0 <= i < v@.len() && #[trigger] v@[i]@ == s@;
            assert(strings_view(v@)[i] == s@);
        }
        if strings_view(v@).contains(s@) {
            let i = choose|i: int| 0 <= i < strings_view(v@).len() && strings_view(v@)[i] == s@;
            assert(v@[i]@ == s@);
        }
    }
    r
}

fn discovered_exec(
    apps: Vec<TemplateCatalogApp>,
    ts: &Vec<TemplateInfo>,
    used: &Vec<String>,
    paths: &CatalogPaths,
    existing: &Vec<String>,
) -> (r: (Vec<TemplateCatalogApp>, Vec<String>))
    ensures
        (apps_view(r.0@), strings_view(r.1@)) == discovered_of(apps_view(apps@), ts@, strings_view(used@), paths@, existing@),
{
    let ghost a0 = apps_view(apps@);
    let ghost uv = strings_view(used@);
    let mut cat = apps;
    let mut probes: Vec<String> = Vec::new();
    let mut i: usize = 0;
    assert(ts@.take(0) =~= Seq::<TemplateInfo>::empty());
    assert(strings_view(probes@) =~= Seq::<Seq<char>>::empty());
    while i < ts.len()
        invariant
            i <= ts.len(),
            uv == strings_view(used@),
            (apps_view(cat@), strings_view(probes@)) == discovered_of(a0, ts@.take(i as int), uv, paths@, existing@),
        decreases ts.len() - i,
    {
        assert(ts@.take(i + 1).drop_last() =~= ts@.take(i as int));
        assert(ts@.take(i + 1).last() == ts@[i as int]);
        let t = &ts[i];
        if !used_exec(used, t.relative_path.as_str()) {
            let ghost before = apps_view(cat@);
            let ghost p0 = strings_view(probes@);
            let name = t.target_app.as_str();
            let idx = match app_index_exec(&cat, name) {
                Some(k) => k,
                None => {
                    cat.push(
                        TemplateCatalogApp {
                            id: catalog_slug(name),
                            name: String::from_str(name),
                            category: String::from_str(normalized_category(t.category.as_str(), name)),
                            variants: Vec::new(),
                        },
                    );
                    proof {
                        let nv: Seq<TemplateCatalogVariant> = Seq::empty();
                        assert(variants_view(nv) =~= Seq::<VariantView>::empty());
                    }
                    cat.len() - 1
                },
            };
            let ghost base = apps_view(cat@);
            let out = discovered_output_exec(t, paths);
            let detected = listed_exec(existing, out.as_str());
            let mut app = cat.remove(idx);
            let mut vid = text::chars_of(app.id.as_str());
            vid.push('-');
            text::push_str(&mut vid, catalog_slug(t.relative_path.as_str()).as_str());
            let mut targets: Vec<TemplateTarget> = Vec::new();
            targets.push(
                TemplateTarget {
                    id: String::from_str("default"),
                    label: String::from_str("Default"),
                    install_type: String::from_str(if t.installable { "native" } else { "manual" }),
                    input_path: t.path.clone(),
                    output_path: out.clone(),
                    detected,
                },
            );
            let variant = TemplateCatalogVariant {
                id: text::string_of(&vid),
                name: t.display_name.clone(),
                description: None,
                source: bundled_source(t.relative_path.as_str()),
                targets,
                template: t.copy(),
            };
            let ghost vv0 = variants_view(app.variants@);
            proof {
                let dv = discovered_variant(app.id@, *t, paths@, existing@);
                reveal_strlit("-");
                assert(vid@ =~= dv.id);
                assert(targets_view(variant.targets@) =~= dv.targets);
                assert(variant.source@ == dv.source);
                assert(variant@ == dv);
            }
            app.variants.push(variant);
            assert(variants_view(app.variants@) =~= vv0.push(discovered_variant(app.id@, *t, paths@, existing@)));
            cat.insert(idx, app);
            assert(apps_view(cat@) =~= discover_step(before, *t, paths@, existing@));
            probes.push(out);
            assert(strings_view(probes@) =~= p0.push(discovered_output(*t, paths@)));
        }
        i = i + 1;
    }
    assert(ts@.take(ts.len() as int) =~= ts@);
    (cat, probes)
}

// ── Order ────────────────────────────────────────────────────────────────────

/// `a` goes before `b`: by category, then by name.
pub open spec fn app_before(a: AppView, b: AppView) -> bool {
    text_lt(a.category, b.category) || (a.category == b.category && text_lt(a.name, b.name))
}

/// Where `a` is inserted: before the first entry it goes before.
pub open spec fn insert_pos(s: Seq<AppView>, a: AppView) -> nat
    decreases s.len(),
{
    if s.len() == 0 || app_before(a, s[0]) {
        0
    } else {
        1 + insert_pos(s.drop_first(), a)
    }
}

/// The stable sort by category and name: each entry inserted after those it
/// does not go before.
pub open spec fn sort_apps(s: Seq<AppView>) -> Seq<AppView>
    decreases s.len(),
{
    if s.len() == 0 {
        s
    } else {
        let r = sort_apps(s.drop_last());
        r.insert(insert_pos(r, s.last()) as int, s.last())
    }
}

proof fn lemma_insert_pos(s: Seq<AppView>, a: AppView, i: int)
    requires
        0 <= i <= s.len(),
        forall|k: int| 0 <= k < i ==> !app_before(a, #[trigger] s[k]),
        i < s.len() ==> app_before(a, s[i]),
    ensures
        insert_pos(s, a) == i,
    decreases i,
{
    if i > 0 {
        assert(!app_before(a, s[0]));
        assert forall|k: int| 0 <= k < i - 1 implies !app_before(a, #[trigger] s.drop_first()[k]) by {
            assert(s.drop_first()[k] == s[k + 1]);
        }
        lemma_insert_pos(s.drop_first(), a, i - 1);
    }
}

fn app_before_exec(a: &TemplateCatalogApp, b: &TemplateCatalogApp) -> (r: bool)
    ensures
        r == app_before(a@, b@),
{
    let ac = text::chars_of(a.category.as_str());
    let bc = text::chars_of(b.category.as_str());
    if text_lt_exec(&ac, &bc) {
        return true;
    }
    if !text::seq_eq(&ac, &bc) {
        return false;
    }
    text_lt_exec(&text::chars_of(a.name.as_str()), &text::chars_of(b.name.as_str()))
}

fn sort_apps_exec(v: Vec<TemplateCatalogApp>) -> (r: Vec<TemplateCatalogApp>)
    ensures
        apps_view(r@) == sort_apps(apps_view(v@)),
{
    let ghost orig = apps_view(v@);
    let ghost n = v.len();
    let mut rest = v;
    let mut out: Vec<TemplateCatalogApp> = Vec::new();
    assert(orig.take(0) =~= Seq::<AppView>::empty());
    assert(apps_view(out@) =~= Seq::<AppView>::empty());
    assert(orig.skip(0) =~= orig);
    while rest.len() > 0
        invariant
            rest.len() <= n,
            orig.len() == n,
            apps_view(rest@) == orig.skip(n - rest.len()),
            apps_view(out@) == sort_apps(orig.take(n - rest.len())),
        decreases rest.len(),
    {
        let ghost done = n - rest.len();
        let ghost rv = apps_view(rest@);
        let a = rest.remove(0);
        assert(rv[0] == a@);
        assert(rv[0] == orig[done as int]);
        assert(apps_view(rest@) =~= orig.skip(done + 1)) by {
            assert(apps_view(rest@) =~= rv.drop_first());
        }
        assert(orig.take(done + 1).drop_last() =~= orig.take(done as int));
        assert(orig.take(done + 1).last() == a@);
        let ghost ov = apps_view(out@);
        let mut k: usize = 0;
        while k < out.len() && !app_before_exec(&a, &out[k])
            invariant
                k <= out.len(),
                ov == apps_view(out@),
                forall|j: int| 0 <= j < k ==> !app_before(a@, #[trigger] ov[j]),
            decreases out.len() - k,
        {
            assert(ov[k as int] == out@[k as int]@);
            k = k + 1;
        }
        proof {
            if k < out.len() {
                assert(ov[k as int] == out@[k as int]@);
            }
            lemma_insert_pos(ov, a@, k as int);
        }
        out.insert(k, a);
        assert(apps_view(out@) =~= ov.insert(k as int, orig.take(done + 1).last()));
    }
    assert(orig.take(n as int) =~= orig);
    out
}

// ── The catalog ──────────────────────────────────────────────────────────────

/// The catalog of the listed template files and the curated metadata: the
/// curated applications, then every template the metadata leaves out,
/// sorted by category and name; with every path whose existence it
/// consulted, in order. `existing` names the paths that exist.
pub open spec fn catalog_of(
    meta: CatalogMetadata,
    ts: Seq<TemplateInfo>,
    p: PathsView,
    existing: Seq<String>,
) -> Result<(Seq<AppView>, Seq<Seq<char>>), Seq<char>> {
    match curated_of(meta.applications@, ts, p, existing) {
        Err(e) => Err(e),
        Ok((apps, used, probes)) => {
            let (all, more) = discovered_of(apps, ts, used, p, existing);
            Ok((sort_apps(all), probes + more))
        },
    }
}

/// The catalog, and the paths whose existence decides its `detected` marks.
/// A call with no existing paths lists those paths (they do not depend on
/// `existing`, see `lemma_probes_independent`); a second call with the ones
/// that exist gives the catalog.
pub fn build_template_catalog(
    metadata: &CatalogMetadata,
    templates: &Vec<TemplateInfo>,
    paths: &CatalogPaths,
    existing: &Vec<String>,
) -> (r: Result<(Vec<TemplateCatalogApp>, Vec<String>), String>)
    ensures
        match r {
            Ok((apps, probes)) => catalog_of(*metadata, templates@, paths@, existing@) == Ok::<
                (Seq<AppView>, Seq<Seq<char>>),
                Seq<char>,
            >((apps_view(apps@), strings_view(probes@))),
            Err(e) => catalog_of(*metadata, templates@, paths@, existing@) == Err::<
                (Seq<AppView>, Seq<Seq<char>>),
                Seq<char>,
            >(e@),
        },
{
    let (apps, used, mut probes) = match curated_exec(&metadata.applications, templates, paths, existing) {
        Err(e) => return Err(e),
        Ok(x) => x,
    };
    let (all, mut more) = discovered_exec(apps, templates, &used, paths, existing);
    let ghost (p0, m0) = (strings_view(probes@), strings_view(more@));
    probes.append(&mut more);
    assert(strings_view(probes@) =~= p0 + m0);
    Ok((sort_apps_exec(all), probes))
}

// ── The paths consulted do not depend on which exist ─────────────────────────

/// Two build results fail alike, or both succeed with as many entries, the
/// same relative paths used and the same paths consulted.
pub open spec fn agree<T, U>(x: Result<Built<T>, Seq<char>>, y: Result<Built<U>, Seq<char>>) -> bool {
    match (x, y) {
        (Err(a), Err(b)) => a == b,
        (Ok(a), Ok(b)) => a.0.len() == b.0.len() && a.1 == b.1 && a.2 == b.2,
        _ => false,
    }
}

proof fn lemma_agree_prepend<T>(
    f1: (Seq<T>, Seq<Seq<char>>, Seq<Seq<char>>),
    f2: (Seq<T>, Seq<Seq<char>>, Seq<Seq<char>>),
    r1: Result<Built<T>, Seq<char>>,
    r2: Result<Built<T>, Seq<char>>,
)
    requires
        f1.0.len() == f2.0.len(),
        f1.1 == f2.1,
        f1.2 == f2.2,
        agree(r1, r2),
    ensures
        agree(prepend(f1, r1), prepend(f2, r2)),
{
}

proof fn lemma_targets_agree(
    mts: Seq<CatalogMetadataTarget>,
    variant_source: Seq<char>,
    ts: Seq<TemplateInfo>,
    p: PathsView,
    e1: Seq<String>,
    e2: Seq<String>,
)
    ensures
        agree(targets_of(mts, variant_source, ts, p, e1), targets_of(mts, variant_source, ts, p, e2)),
    decreases mts.len(),
{
    if mts.len() > 0 {
        lemma_targets_agree(mts.drop_first(), variant_source, ts, p, e1, e2);
        let t = mts[0];
        let sp = match t.source_path {
            Some(s) => s@,
            None => variant_source,
        };
        match by_path(ts, sp) {
            None => {},
            Some(input) => match resolve_of(p, t.output_path@) {
                Err(e) => {},
                Ok(out) => match probe_of(t, out, p) {
                    Err(e) => {},
                    Ok(probe) => {
                        let mk = |d: bool|
                            TargetView {
                                id: t.id@,
                                label: t.label@,
                                install_type: t.install_type@,
                                input_path: input.path@,
                                output_path: out,
                                detected: d,
                            };
                        lemma_agree_prepend(
                            (seq![mk(listed(e1, probe))], seq![sp], seq![probe]),
                            (seq![mk(listed(e2, probe))], seq![sp], seq![probe]),
                            targets_of(mts.drop_first(), variant_source, ts, p, e1),
                            targets_of(mts.drop_first(), variant_source, ts, p, e2),
                        );
                    },
                },
            },
        }
    }
}

/// Two variant results fail alike, or agree on whether there is a variant
/// and on what it used and consulted.
pub open spec fn variant_agree(
    x: Result<Option<(VariantView, Seq<Seq<char>>, Seq<Seq<char>>)>, Seq<char>>,
    y: Result<Option<(VariantView, Seq<Seq<char>>, Seq<Seq<char>>)>, Seq<char>>,
) -> bool {
    match (x, y) {
        (Err(a), Err(b)) => a == b,
        (Ok(None), Ok(None)) => true,
        (Ok(Some(a)), Ok(Some(b))) => a.1 == b.1 && a.2 == b.2,
        _ => false,
    }
}

proof fn lemma_variant_agree(
    app: CatalogMetadataApp,
    v: CatalogMetadataVariant,
    ts: Seq<TemplateInfo>,
    p: PathsView,
    e1: Seq<String>,
    e2: Seq<String>,
)
    ensures
        variant_agree(variant_of(app, v, ts, p, e1), variant_of(app, v, ts, p, e2)),
{
    lemma_targets_agree(v.targets@, v.source_path@, ts, p, e1, e2);
}

proof fn lemma_app_variants_agree(
    app: CatalogMetadataApp,
    vs: Seq<CatalogMetadataVariant>,
    ts: Seq<TemplateInfo>,
    p: PathsView,
    e1: Seq<String>,
    e2: Seq<String>,
)
    ensures
        agree(app_variants_of(app, vs, ts, p, e1), app_variants_of(app, vs, ts, p, e2)),
    decreases vs.len(),
{
    if vs.len() > 0 {
        lemma_app_variants_agree(app, vs.drop_first(), ts, p, e1, e2);
        lemma_variant_agree(app, vs[0], ts, p, e1, e2);
        match (variant_of(app, vs[0], ts, p, e1), variant_of(app, vs[0], ts, p, e2)) {
            (Ok(Some((x1, u1, p1))), Ok(Some((x2, u2, p2)))) => {
                lemma_agree_prepend(
                    (seq![x1], u1, p1),
                    (seq![x2], u2, p2),
                    app_variants_of(app, vs.drop_first(), ts, p, e1),
                    app_variants_of(app, vs.drop_first(), ts, p, e2),
                );
            },
            _ => {},
        }
    }
}

proof fn lemma_curated_agree(
    apps: Seq<CatalogMetadataApp>,
    ts: Seq<TemplateInfo>,
    p: PathsView,
    e1: Seq<String>,
    e2: Seq<String>,
)
    ensures
        agree(curated_of(apps, ts, p, e1), curated_of(apps, ts, p, e2)),
    decreases apps.len(),
{
    if apps.len() > 0 {
        let a = apps[0];
        lemma_curated_agree(apps.drop_first(), ts, p, e1, e2);
        lemma_app_variants_agree(a, a.variants@, ts, p, e1, e2);
        match (app_variants_of(a, a.variants@, ts, p, e1), app_variants_of(a, a.variants@, ts, p, e2)) {
            (Ok((v1, u1, p1)), Ok((v2, u2, p2))) => {
                let mk = |vv: Seq<VariantView>|
                    if vv.len() > 0 {
                        seq![
                            AppView {
                                id: a.id@,
                                name: a.name@,
                                category: normalized_category_of(a.category@, a.name@),
                                variants: vv,
                            },
                        ]
                    } else {
                        Seq::<AppView>::empty()
                    };
                lemma_agree_prepend(
                    (mk(v1), u1, p1),
                    (mk(v2), u2, p2),
                    curated_of(apps.drop_first(), ts, p, e1),
                    curated_of(apps.drop_first(), ts, p, e2),
                );
            },
            _ => {},
        }
    }
}

proof fn lemma_discovered_probes(
    a1: Seq<AppView>,
    a2: Seq<AppView>,
    ts: Seq<TemplateInfo>,
    used: Seq<Seq<char>>,
    p: PathsView,
    e1: Seq<String>,
    e2: Seq<String>,
)
    ensures
        discovered_of(a1, ts, used, p, e1).1 == discovered_of(a2, ts, used, p, e2).1,
    decreases ts.len(),
{
    if ts.len() > 0 {
        lemma_discovered_probes(a1, a2, ts.drop_last(), used, p, e1, e2);
    }
}

/// Which paths the catalog consults, and whether and how it fails, does not
/// depend on which paths exist: only the `detected` marks do.
pub proof fn lemma_probes_independent(
    meta: CatalogMetadata,
    ts: Seq<TemplateInfo>,
    p: PathsView,
    e1: Seq<String>,
    e2: Seq<String>,
)
    ensures
        catalog_of(meta, ts, p, e1) is Ok <==> catalog_of(meta, ts, p, e2) is Ok,
        catalog_of(meta, ts, p, e1) matches Err(x) ==> catalog_of(meta, ts, p, e2) == Err::<
            (Seq<AppView>, Seq<Seq<char>>),
            Seq<char>,
        >(x),
        catalog_of(meta, ts, p, e1) matches Ok(x) ==> catalog_of(meta, ts, p, e2) matches Ok(y) && x.1 == y.1,
{
    lemma_curated_agree(meta.applications@, ts, p, e1, e2);
    match (curated_of(meta.applications@, ts, p, e1), curated_of(meta.applications@, ts, p, e2)) {
        (Ok((a1, u1, p1)), Ok((a2, u2, p2))) => {
            lemma_discovered_probes(a1, a2, ts, u1, p, e1, e2);
        },
        _ => {},
    }
}

/// The stable sort orders by category, then name.
pub proof fn lemma_sort_apps_sorted(s: Seq<AppView>)
    ensures
        sort_apps(s).len() == s.len(),
        forall|i: int, j: int| 0 <= i < j < s.len() ==> !app_before(#[trigger] sort_apps(s)[j], #[trigger] sort_apps(s)[i]),
    decreases s.len(),
{
    if s.len() > 0 {
        let r = sort_apps(s.drop_last());
        let a = s.last();
        lemma_sort_apps_sorted(s.drop_last());
        let k = insert_pos(r, a) as int;
        lemma_insert_pos_facts(r, a);
        let out = r.insert(k, a);
        assert(out == sort_apps(s));
        assert forall|i: int, j: int| 0 <= i < j < out.len() implies !app_before(#[trigger] out[j], #[trigger] out[i]) by {
            if j < k {
                assert(out[i] == r[i] && out[j] == r[j]);
            } else if j == k {
                assert(out[i] == r[i]);
                assert(!app_before(a, r[i]));
            } else if i < k {
                assert(out[i] == r[i] && out[j] == r[j - 1]);
                if i < j - 1 {
                } 
            } else if i == k {
                assert(out[j] == r[j - 1]);
                lemma_not_before_after(r, a, k, j - 1);
            } else {
                assert(out[i] == r[i - 1] && out[j] == r[j - 1]);
            }
        }
    }
}

/// The catalog lists its applications in order by category, then name.
pub proof fn lemma_catalog_sorted(meta: CatalogMetadata, ts: Seq<TemplateInfo>, p: PathsView, existing: Seq<String>)
    ensures
        catalog_of(meta, ts, p, existing) matches Ok((apps, _)) ==> forall|i: int, j: int|
            0 <= i < j < apps.len() ==> !app_before(#[trigger] apps[j], #[trigger] apps[i]),
{
    match curated_of(meta.applications@, ts, p, existing) {
        Err(_) => {},
        Ok((apps, used, probes)) => {
            let (all, more) = discovered_of(apps, ts, used, p, existing);
            lemma_sort_apps_sorted(all);
        },
    }
}

proof fn lemma_insert_pos_facts(s: Seq<AppView>, a: AppView)
    ensures
        insert_pos(s, a) <= s.len(),
        forall|k: int| 0 <= k < insert_pos(s, a) ==> !app_before(a, #[trigger] s[k]),
        insert_pos(s, a) < s.len() ==> app_before(a, s[insert_pos(s, a) as int]),
    decreases s.len(),
{
    if s.len() > 0 && !app_before(a, s[0]) {
        lemma_insert_pos_facts(s.drop_first(), a);
        assert forall|k: int| 0 <= k < insert_pos(s, a) implies !app_before(a, #[trigger] s[k]) by {
            if k > 0 {
                assert(s[k] == s.drop_first()[k - 1]);
            }
        }
    }
}

/// In a sorted run, what comes at or after the first entry that `a` goes
/// before does not go before `a`.
proof fn lemma_not_before_after(r: Seq<AppView>, a: AppView, k: int, m: int)
    requires
        0 <= k <= m < r.len(),
        app_before(a, r[k]),
        forall|i: int, j: int| 0 <= i < j < r.len() ==> !app_before(#[trigger] r[j], #[trigger] r[i]),
    ensures
        !app_before(r[m], a),
{
    if m > k {
        assert(!app_before(r[m], r[k]));
    }
    lemma_app_before_facts(a, r[k], r[m]);
}

proof fn lemma_app_before_facts(a: AppView, b: AppView, c: AppView)
    ensures
        app_before(a, b) ==> !app_before(b, a),
        app_before(a, b) && !app_before(c, b) ==> !app_before(c, a),
{
    if app_before(a, b) {
        if text_lt(a.category, b.category) {
            crate::wallpaper::lemma_text_lt_asymmetric(a.category, b.category);
        } else {
            crate::wallpaper::lemma_text_lt_asymmetric(a.name, b.name);
            crate::wallpaper::lemma_text_lt_irreflexive(a.category);
        }
        if !app_before(c, b) && app_before(c, a) {
            // c before a before b gives c before b.
            crate::wallpaper::lemma_text_lt_total(c.category, b.category);
            if text_lt(c.category, a.category) {
                if text_lt(a.category, b.category) {
                    crate::wallpaper::lemma_text_lt_transitive(c.category, a.category, b.category);
                }
            } else if text_lt(a.category, b.category) {
            } else {
                crate::wallpaper::lemma_text_lt_transitive(c.name, a.name, b.name);
            }
        }
    }
}

// ── Listing the bundled templates ────────────────────────────────────────────

/// `is_matugen_template`: not under `/nix-hm-example/`, not a `README.md` or
/// `init.lua`, and its text (where it can be read) holds `{{`.
pub open spec fn is_matugen_template_of(path_text: Seq<char>, content: Option<Seq<char>>) -> bool {
    if text::contains(path_text, "/nix-hm-example/"@) || text::ends_with(path_text, "/README.md"@)
        || text::ends_with(path_text, "/init.lua"@) {
        false
    } else {
        match content {
            Some(c) => text::contains(c, "{{"@),
            None => false,
        }
    }
}

/// Decides from the path first; `content` is the file's text, `None` where it
/// cannot be read.
pub fn is_matugen_template(path_text: &str, content: Option<&str>) -> (r: bool)
    ensures
        r == is_matugen_template_of(path_text@, crate::wallpaper::opt_str(content)),
{
    let p = text::chars_of(path_text);
    if text::contains_str(&p, "/nix-hm-example/") || text::ends_with_str(&p, "/README.md") || text::ends_with_str(
        &p,
        "/init.lua",
    ) {
        return false;
    }
    match content {
        Some(c) => text::contains_str(&text::chars_of(c), "{{"),
        None => false,
    }
}

/// A website style's relative path: `websites/` and its file name (or
/// `website.css` where it has none).
pub fn website_relative_path(file_name: Option<&str>) -> (r: String)
    ensures
        r@ == "websites/"@ + match file_name {
            Some(n) => n@,
            None => "website.css"@,
        },
{
    let mut out = text::chars_of("websites/");
    text::push_str(
        &mut out,
        match file_name {
            Some(n) => n,
            None => "website.css",
        },
    );
    text::string_of(&out)
}

/// `a` goes before `b`: by category, then application, then relative path.
pub open spec fn template_before(a: InfoView, b: InfoView) -> bool {
    ||| text_lt(a.category, b.category)
    ||| (a.category == b.category && text_lt(a.target_app, b.target_app))
    ||| (a.category == b.category && a.target_app == b.target_app && text_lt(a.relative_path, b.relative_path))
}

pub open spec fn template_insert_pos(s: Seq<InfoView>, a: InfoView) -> nat
    decreases s.len(),
{
    if s.len() == 0 || template_before(a, s[0]) {
        0
    } else {
        1 + template_insert_pos(s.drop_first(), a)
    }
}

/// The templates in catalog order (a stable sort).
pub open spec fn sort_templates_of(s: Seq<InfoView>) -> Seq<InfoView>
    decreases s.len(),
{
    if s.len() == 0 {
        s
    } else {
        let r = sort_templates_of(s.drop_last());
        r.insert(template_insert_pos(r, s.last()) as int, s.last())
    }
}

proof fn lemma_template_insert_pos(s: Seq<InfoView>, a: InfoView, i: int)
    requires
        0 <= i <= s.len(),
        forall|k: int| 0 <= k < i ==> !template_before(a, #[trigger] s[k]),
        i < s.len() ==> template_before(a, s[i]),
    ensures
        template_insert_pos(s, a) == i,
    decreases i,
{
    if i > 0 {
        assert(!template_before(a, s[0]));
        assert forall|k: int| 0 <= k < i - 1 implies !template_before(a, #[trigger] s.drop_first()[k]) by {
            assert(s.drop_first()[k] == s[k + 1]);
        }
        lemma_template_insert_pos(s.drop_first(), a, i - 1);
    }
}

fn template_before_exec(a: &TemplateInfo, b: &TemplateInfo) -> (r: bool)
    ensures
        r == template_before(a@, b@),
{
    let ac = text::chars_of(a.category.as_str());
    let bc = text::chars_of(b.category.as_str());
    if text_lt_exec(&ac, &bc) {
        return true;
    }
    if !text::seq_eq(&ac, &bc) {
        return false;
    }
    let at = text::chars_of(a.target_app.as_str());
    let bt = text::chars_of(b.target_app.as_str());
    if text_lt_exec(&at, &bt) {
        return true;
    }
    if !text::seq_eq(&at, &bt) {
        return false;
    }
    text_lt_exec(&text::chars_of(a.relative_path.as_str()), &text::chars_of(b.relative_path.as_str()))
}

pub open spec fn infos_view(v: Seq<TemplateInfo>) -> Seq<InfoView> {
    v.map_values(|t: TemplateInfo| t@)
}

/// The templates in catalog order.
pub fn sort_templates(v: Vec<TemplateInfo>) -> (r: Vec<TemplateInfo>)
    ensures
        infos_view(r@) == sort_templates_of(infos_view(v@)),
{
    let ghost orig = infos_view(v@);
    let ghost n = v.len();
    let mut rest = v;
    let mut out: Vec<TemplateInfo> = Vec::new();
    assert(orig.take(0) =~= Seq::<InfoView>::empty());
    assert(infos_view(out@) =~= Seq::<InfoView>::empty());
    assert(orig.skip(0) =~= orig);
    while rest.len() > 0
        invariant
            rest.len() <= n,
            orig.len() == n,
            infos_view(rest@) == orig.skip(n - rest.len()),
            infos_view(out@) == sort_templates_of(orig.take(n - rest.len())),
        decreases rest.len(),
    {
        let ghost done = n - rest.len();
        let ghost rv = infos_view(rest@);
        let a = rest.remove(0);
        assert(rv[0] == a@);
        assert(rv[0] == orig[done as int]);
        assert(infos_view(rest@) =~= orig.skip(done + 1)) by {
            assert(infos_view(rest@) =~= rv.drop_first());
        }
        assert(orig.take(done + 1).drop_last() =~= orig.take(done as int));
        assert(orig.take(done + 1).last() == a@);
        let ghost ov = infos_view(out@);
        let mut k: usize = 0;
        while k < out.len() && !template_before_exec(&a, &out[k])
            invariant
                k <= out.len(),
                ov == infos_view(out@),
                forall|j: int| 0 <= j < k ==> !template_before(a@, #[trigger] ov[j]),
            decreases out.len() - k,
        {
            assert(ov[k as int] == out@[k as int]@);
            k = k + 1;
        }
        proof {
            if k < out.len() {
                assert(ov[k as int] == out@[k as int]@);
            }
            lemma_template_insert_pos(ov, a@, k as int);
        }
        out.insert(k, a);
        assert(infos_view(out@) =~= ov.insert(k as int, orig.take(done + 1).last()));
    }
    assert(orig.take(n as int) =~= orig);
    out
}

} // verus!
