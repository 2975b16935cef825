//! Color controls of installed templates: which declarations of a template
//! take a scheme color, and how user overrides are written into the rendered
//! output.
use vstd::prelude::*;
use crate::context::opt_view;
use crate::kde::{strip_end_char, trim_char};
use crate::matching::{hex_find, hex_find_from, hex_match_at, regex_captured, regex_captures, regex_find};
use crate::text;
use crate::text::{find, starts_with, trim, utf8_len};

verus! {

/// A `key: value` or `key = value` declaration of a template line.
#[derive(Debug)]
pub struct ParsedDeclaration {
    pub key: String,
    pub value: String,
    pub description: Option<String>,
}

pub struct DeclView {
    pub key: Seq<char>,
    pub value: Seq<char>,
    pub description: Option<Seq<char>>,
}

impl View for ParsedDeclaration {
    type V = DeclView;

    open spec fn view(&self) -> DeclView {
        DeclView { key: self.key@, value: self.value@, description: opt_view(self.description) }
    }
}

/// The separator of a trimmed declaration line: `:` for a CSS variable,
/// else `=` where there is one, else `:`.
pub open spec fn decl_separator(t: Seq<char>) -> Option<char> {
    if starts_with(t, "--"@) {
        Some(':')
    } else if text::contains(t, "="@) {
        Some('=')
    } else if text::contains(t, ":"@) {
        Some(':')
    } else {
        None
    }
}

/// The value part and its comment: a `/* .. */` block, or else (outside CSS
/// variables) what follows ` #`. The flag is set where the block markers
/// overlap, where slicing panics.
pub open spec fn split_comment(t: Seq<char>, v: Seq<char>) -> (Seq<char>, Option<Seq<char>>, bool) {
    match (find(v, "/*"@), find(v, "*/"@)) {
        (Some(s), Some(e)) => if e > s {
            if e < s + 2 {
                (v, None, true)
            } else {
                (trim(v.take(s)), Some(trim(v.subrange(s + 2, e))), false)
            }
        } else {
            (v, None, false)
        },
        _ => if !starts_with(t, "--"@) {
            match find(v, " #"@) {
                Some(c) => (trim(v.take(c)), Some(trim(v.skip(c + 2))), false),
                None => (v, None, false),
            }
        } else {
            (v, None, false)
        },
    }
}

/// The value without trailing `,` and `;`, trimmed and unquoted.
pub open spec fn clean_value(v: Seq<char>) -> Seq<char> {
    trim_char(trim_char(trim(strip_end_char(strip_end_char(v, ','), ';')), '"'), '\'')
}

/// The key before the separator, trimmed and unquoted.
pub open spec fn decl_key(t: Seq<char>, idx: int) -> Seq<char> {
    trim_char(trim_char(trim(t.take(idx)), '"'), '\'')
}

/// The trimmed line, its separator position, and whether it declares.
pub open spec fn decl_parts(line: Seq<char>) -> Option<(Seq<char>, int)> {
    let t = trim(line);
    if t.len() == 0 || starts_with(t, "//"@) || starts_with(t, "/*"@) {
        None
    } else {
        match decl_separator(t) {
            None => None,
            Some(sep) => match find(t, seq![sep]) {
                None => None,
                Some(idx) => {
                    let key = decl_key(t, idx);
                    if key.len() == 0 || key[0] == '[' || utf8_len(key) > 80 {
                        None
                    } else {
                        Some((t, idx))
                    }
                },
            },
        }
    }
}

/// `declaration_from_line` would panic on `line`.
pub open spec fn declaration_panics(line: Seq<char>) -> bool {
    match decl_parts(line) {
        Some((t, idx)) => split_comment(t, trim(t.skip(idx + 1))).2,
        None => false,
    }
}

/// `declaration_from_line`.
pub open spec fn declaration_of(line: Seq<char>) -> Option<DeclView> {
    match decl_parts(line) {
        Some((t, idx)) => {
            let (v, d, _) = split_comment(t, trim(t.skip(idx + 1)));
            Some(
                DeclView {
                    key: decl_key(t, idx),
                    value: clean_value(v),
                    description: match d {
                        Some(x) => if x.len() > 0 {
                            Some(x)
                        } else {
                            None
                        },
                        None => None,
                    },
                },
            )
        },
        None => None,
    }
}

fn strip_end_char_exec(s: &Vec<char>, c: char) -> (r: Vec<char>)
    ensures
        r@ == strip_end_char(s@, c),
{
    let mut j: usize = s.len();
    assert(s@.take(j as int) =~= s@);
    while j > 0 && s[j - 1] == c
        invariant
            j <= s.len(),
            strip_end_char(s@.take(j as int), c) == strip_end_char(s@, c),
        decreases j,
    {
        assert(s@.take(j as int).drop_last() =~= s@.take(j - 1));
        j = j - 1;
    }
    let r = text::slice_of(s, 0, j);
    assert(r@ =~= s@.take(j as int));
    r
}

fn trim_char_both(s: &Vec<char>, c: char) -> (r: Vec<char>)
    ensures
        r@ == trim_char(s@, c),
{
    let mut i: usize = 0;
    assert(s@.skip(0) =~= s@);
    while i < s.len() && s[i] == c
        invariant
            i <= s.len(),
            crate::kde::strip_start_char(s@.skip(i as int), c) == crate::kde::strip_start_char(s@, c),
        decreases s.len() - i,
    {
        assert(s@.skip(i as int).drop_first() =~= s@.skip(i + 1));
        i = i + 1;
    }
    let t = text::slice_of(s, i, s.len());
    assert(t@ =~= s@.skip(i as int));
    strip_end_char_exec(&t, c)
}

fn find_one(s: &Vec<char>, p: &str) -> (r: Option<usize>)
    ensures
        r matches Some(i) ==> find(s@, p@) == Some(i as int) && i + p@.len() <= s.len(),
        r is None ==> find(s@, p@) is None,
{
    let r = text::find_str(s, p);
    proof {
        text::lemma_find_is_first(s@, p@);
    }
    r
}

fn split_comment_exec(t: &Vec<char>, v: &Vec<char>) -> (r: (Vec<char>, Option<Vec<char>>, bool))
    ensures
        (r.0@, match r.1 {
            Some(x) => Some(x@),
            None => None,
        }, r.2) == split_comment(t@, v@),
{
    proof {
        reveal_strlit("/*");
        reveal_strlit("*/");
        reveal_strlit(" #");
    }
    let open_ = find_one(v, "/*");
    let close = find_one(v, "*/");
    match (open_, close) {
        (Some(s), Some(e)) => {
            if e > s {
                if e < s + 2 {
                    (text::slice_of(v, 0, v.len()), None, true)
                } else {
                    let head = text::slice_of(v, 0, s);
                    let mid = text::slice_of(v, s + 2, e);
                    assert(head@ =~= v@.take(s as int));
                    (text::trim_exec(&head), Some(text::trim_exec(&mid)), false)
                }
            } else {
                let same = text::slice_of(v, 0, v.len());
                assert(same@ =~= v@);
                (same, None, false)
            }
        },
        _ => {
            let same = text::slice_of(v, 0, v.len());
            assert(same@ =~= v@);
            if !text::starts_with_str(t, "--") {
                match find_one(v, " #") {
                    Some(c) => {
                        let head = text::slice_of(v, 0, c);
                        let tail = text::slice_of(v, c + 2, v.len());
                        assert(head@ =~= v@.take(c as int));
                        assert(tail@ =~= v@.skip(c + 2));
                        (text::trim_exec(&head), Some(text::trim_exec(&tail)), false)
                    },
                    None => (same, None, false),
                }
            } else {
                (same, None, false)
            }
        },
    }
}

/// `declaration_from_line`: the declaration of a template line, if it has one.
pub fn declaration_from_line(line: &str) -> (r: Option<ParsedDeclaration>)
    requires
        !declaration_panics(line@),
    ensures
        r matches Some(d) ==> declaration_of(line@) == Some(d@),
        r is None ==> declaration_of(line@) is None,
{
    let t = text::trim_exec(&text::chars_of(line));
    if t.len() == 0 || text::starts_with_str(&t, "//") || text::starts_with_str(&t, "/*") {
        return None;
    }
    let sep = if text::starts_with_str(&t, "--") {
        ':'
    } else if text::contains_str(&t, "=") {
        '='
    } else if text::contains_str(&t, ":") {
        ':'
    } else {
        return None;
    };
    let sv: Vec<char> = vec![sep];
    assert(sv@ =~= seq![sep]);
    let idx = match text::find_exec(&t, &sv) {
        Some(i) => i,
        None => {
            return None;
        },
    };
    proof {
        text::lemma_find_is_first(t@, sv@);
    }
    assert(sv@ =~= seq![sep]);
    let head = text::slice_of(&t, 0, idx);
    assert(head@ =~= t@.take(idx as int));
    let k1 = text::trim_exec(&head);
    let k2 = trim_char_both(&k1, '"');
    let key = trim_char_both(&k2, '\'');
    if key.len() == 0 || key[0] == '[' || key.len() > 80 || text::utf8_len_exec(&key) > 80 {
        proof {
            if key.len() > 80 {
                text::lemma_utf8_len_at_least(key@);
            }
        }
        return None;
    }
    let rest = text::slice_of(&t, idx + 1, t.len());
    assert(rest@ =~= t@.skip(idx + 1));
    let vp = text::trim_exec(&rest);
    let (v, d, _) = split_comment_exec(&t, &vp);
    let v1 = strip_end_char_exec(&v, ',');
    let v2 = strip_end_char_exec(&v1, ';');
    let v3 = text::trim_exec(&v2);
    let v4 = trim_char_both(&v3, '"');
    let value = trim_char_both(&v4, '\'');
    let description = match d {
        Some(x) => if x.len() > 0 {
            Some(text::string_of(&x))
        } else {
            None
        },
        None => None,
    };
    Some(
        ParsedDeclaration {
            key: text::string_of(&key),
            value: text::string_of(&value),
            description,
        },
    )
}

/// `str::trim_start_matches("--")`.
pub open spec fn strip_dashes(s: Seq<char>) -> Seq<char>
    decreases s.len(),
{
    if s.len() >= 2 && s[0] == '-' && s[1] == '-' {
        strip_dashes(s.skip(2))
    } else {
        s
    }
}

/// `friendly_token_name`: the key without leading `--` and quotes, `-` and
/// `_` read as spaces.
pub open spec fn friendly_token_of(key: Seq<char>) -> Seq<char> {
    trim_char(trim_char(strip_dashes(key), '"'), '\'').map_values(|c: char| if c == '-' || c == '_' {
        ' '
    } else {
        c
    })
}

pub fn friendly_token_name(key: &str) -> (r: String)
    ensures
        r@ == friendly_token_of(key@),
{
    let v = text::chars_of(key);
    let mut i: usize = 0;
    assert(v@.skip(0) =~= v@);
    while v.len() - i >= 2 && v[i] == '-' && v[i + 1] == '-'
        invariant
            i <= v.len(),
            v@ == key@,
            strip_dashes(v@.skip(i as int)) == strip_dashes(key@),
        decreases v.len() - i,
    {
        assert(v@.skip(i as int).skip(2) =~= v@.skip(i + 2));
        i = i + 2;
    }
    let s = text::slice_of(&v, i, v.len());
    assert(s@ =~= v@.skip(i as int));
    let q = trim_char_both(&s, '"');
    let t = trim_char_both(&q, '\'');
    let mut out: Vec<char> = Vec::new();
    let mut j: usize = 0;
    while j < t.len()
        invariant
            j <= t.len(),
            out@ == t@.take(j as int).map_values(|c: char| if c == '-' || c == '_' {
                ' '
            } else {
                c
            }),
        decreases t.len() - j,
    {
        let c = t[j];
        out.push(if c == '-' || c == '_' { ' ' } else { c });
        j = j + 1;
        assert(out@ =~= t@.take(j as int).map_values(|c: char| if c == '-' || c == '_' {
            ' '
        } else {
            c
        }));
    }
    assert(t@.take(t.len() as int) =~= t@);
    text::string_of(&out)
}

// ── Regular expressions ──────────────────────────────────────────────────────

/// The pattern of a scheme color reference `colors.ROLE.VARIANT.hex` (or
/// `.color`).
pub open spec fn color_ref_pattern() -> Seq<char> {
    "colors\\.([A-Za-z0-9_]+)\\.([A-Za-z0-9_]+)\\.(hex|color)"@
}

/// The three groups of the first color reference, where each took part.
pub open spec fn color_ref_capture(text: Seq<char>) -> Option<(Seq<char>, Seq<char>, Seq<char>)> {
    match regex_captured(color_ref_pattern(), text) {
        Some(g) => if g.len() >= 4 && g[1] is Some && g[2] is Some && g[3] is Some {
            Some((g[1]->0, g[2]->0, g[3]->0))
        } else {
            None
        },
        None => None,
    }
}

fn color_ref_capture_exec(text: &str) -> (r: Option<(String, String, String)>)
    ensures
        r matches Some(x) ==> color_ref_capture(text@) == Some((x.0@, x.1@, x.2@)),
        r is None ==> color_ref_capture(text@) is None,
{
    let groups = regex_captures("colors\\.([A-Za-z0-9_]+)\\.([A-Za-z0-9_]+)\\.(hex|color)", text)?;
    if groups.len() < 4 {
        return None;
    }
    match (&groups[1], &groups[2], &groups[3]) {
        (Some(a), Some(b), Some(c)) => Some((a.clone(), b.clone(), c.clone())),
        _ => None,
    }
}

/// The `role.variant.key` path of a color reference's three groups.
pub open spec fn path_of_capture(c: (Seq<char>, Seq<char>, Seq<char>)) -> Seq<char> {
    c.0 + seq!['.'] + c.1 + seq!['.'] + c.2
}

/// `source_path_from_value`: `role.variant.key` of the referenced color.
pub open spec fn source_path_of(value: Seq<char>) -> Option<Seq<char>> {
    match color_ref_capture(value) {
        Some(c) => Some(path_of_capture(c)),
        None => None,
    }
}

/// Joins the three groups of a color reference with dots.
pub fn path_from_capture(role: &str, variant: &str, key: &str) -> (r: String)
    ensures
        r@ == path_of_capture((role@, variant@, key@)),
{
    let mut out = text::chars_of(role);
    out.push('.');
    text::push_str(&mut out, variant);
    out.push('.');
    text::push_str(&mut out, key);
    assert(out@ =~= role@ + seq!['.'] + variant@ + seq!['.'] + key@);
    text::string_of(&out)
}

pub fn source_path_from_value(value: &str) -> (r: Option<String>)
    ensures
        r matches Some(p) ==> source_path_of(value@) == Some(p@),
        r is None ==> source_path_of(value@) is None,
{
    let (a, b, c) = color_ref_capture_exec(value)?;
    Some(path_from_capture(a.as_str(), b.as_str(), c.as_str()))
}

fn hex_find_exec(text: &str) -> (r: Option<(String, String)>)
    ensures
        r is None ==> hex_find(text@) is None,
        r matches Some(x) ==> hex_find(text@) == Some((x.0@.len() as int, x.1@.len() as int))
            && text@.take((x.0@.len() + x.1@.len()) as int) == x.0@ + x.1@,
{
    regex_find("(?i)#(?:[0-9a-f]{8}|[0-9a-f]{6})", text)
}


// ── Controls and overrides ───────────────────────────────────────────────────

/// A user's replacement for one color of a template; earlier versions stored
/// the color alone.
#[derive(Debug, Clone)]
pub enum TemplateColorOverride {
    Detailed { hex: String, original_hex: Option<String> },
    Legacy(String),
}

pub open spec fn override_hex(o: TemplateColorOverride) -> Seq<char> {
    match o {
        TemplateColorOverride::Detailed { hex, .. } => hex@,
        TemplateColorOverride::Legacy(h) => h@,
    }
}

pub open spec fn override_original(o: TemplateColorOverride) -> Option<Seq<char>> {
    match o {
        TemplateColorOverride::Detailed { original_hex, .. } => opt_view(original_hex),
        TemplateColorOverride::Legacy(_) => None,
    }
}

impl TemplateColorOverride {
    pub fn hex(&self) -> (r: &str)
        ensures
            r@ == override_hex(*self),
    {
        match self {
            TemplateColorOverride::Detailed { hex, .. } => hex.as_str(),
            TemplateColorOverride::Legacy(hex) => hex.as_str(),
        }
    }

    pub fn original_hex(&self) -> (r: Option<&str>)
        ensures
            crate::wallpaper::opt_str(r) == override_original(*self),
    {
        match self {
            TemplateColorOverride::Detailed { original_hex, .. } => match original_hex {
                Some(h) => Some(h.as_str()),
                None => None,
            },
            TemplateColorOverride::Legacy(_) => None,
        }
    }
}

/// A color declaration of a template source, with the color it rendered to.
#[derive(Debug)]
pub struct ParsedColorControl {
    pub key: String,
    pub name: String,
    pub description: Option<String>,
    pub source_path: Option<String>,
    pub original_hex: String,
}

pub struct ControlView {
    pub key: Seq<char>,
    pub name: Seq<char>,
    pub description: Option<Seq<char>>,
    pub source_path: Option<Seq<char>>,
    pub original_hex: Seq<char>,
}

impl View for ParsedColorControl {
    type V = ControlView;

    open spec fn view(&self) -> ControlView {
        ControlView {
            key: self.key@,
            name: self.name@,
            description: opt_view(self.description),
            source_path: opt_view(self.source_path),
            original_hex: self.original_hex@,
        }
    }
}

/// A template's color controls as the interface lists them.
#[derive(Debug, Clone)]
pub struct TemplateColorGroup {
    pub template_name: String,
    pub display_name: String,
    pub target_app: String,
    pub output_path: Option<String>,
    pub controls: Vec<TemplateColorControl>,
}

#[derive(Debug, Clone)]
pub struct TemplateColorControl {
    pub key: String,
    pub name: String,
    pub description: Option<String>,
    pub source_path: Option<String>,
    pub original_hex: String,
    pub current_hex: String,
    pub overridden: bool,
}

/// No line of the text makes `declaration_from_line` panic.
pub open spec fn lines_parse(s: Seq<char>) -> bool {
    forall|i: int| 0 <= i < text::lines(s).len() ==> !declaration_panics(#[trigger] text::lines(s)[i])
}

/// The value of the first declaration of `key`.
pub open spec fn first_value(ds: Seq<(Seq<char>, Seq<char>)>, key: Seq<char>) -> Option<Seq<char>>
    decreases ds.len(),
{
    if ds.len() == 0 {
        None
    } else if ds[0].0 == key {
        Some(ds[0].1)
    } else {
        first_value(ds.drop_first(), key)
    }
}

/// `rendered_declarations`: each key with its first value, in order.
pub open spec fn declarations_of(ls: Seq<Seq<char>>) -> Seq<(Seq<char>, Seq<char>)>
    decreases ls.len(),
{
    if ls.len() == 0 {
        Seq::empty()
    } else {
        let before = declarations_of(ls.drop_last());
        match declaration_of(ls.last()) {
            Some(d) => if first_value(before, d.key) is Some {
                before
            } else {
                before.push((d.key, d.value))
            },
            None => before,
        }
    }
}

pub open spec fn pairs_view(v: Seq<(String, String)>) -> Seq<(Seq<char>, Seq<char>)> {
    v.map_values(|p: (String, String)| (p.0@, p.1@))
}

fn first_value_exec(ds: &Vec<(String, String)>, key: &str) -> (r: Option<usize>)
    ensures
        r matches Some(i) ==> i < ds.len() && first_value(pairs_view(ds@), key@) == Some(ds@[i as int].1@),
        r is None ==> first_value(pairs_view(ds@), key@) is None,
{
    let ghost pv = pairs_view(ds@);
    let mut i: usize = 0;
    assert(pv.skip(0) =~= pv);
    while i < ds.len()
        invariant
            i <= ds.len(),
            pv == pairs_view(ds@),
            first_value(pv.skip(i as int), key@) == first_value(pv, key@),
        decreases ds.len() - i,
    {
        assert(pv.skip(i as int)[0] == (ds@[i as int].0@, ds@[i as int].1@));
        if crate::context::str_eq(ds[i].0.as_str(), key) {
            return Some(i);
        }
        assert(pv.skip(i as int).drop_first() =~= pv.skip(i + 1));
        i = i + 1;
    }
    None
}

/// `rendered_declarations`.
pub fn rendered_declarations(rendered: &str) -> (r: Vec<(String, String)>)
    requires
        lines_parse(rendered@),
    ensures
        pairs_view(r@) == declarations_of(text::lines(rendered@)),
{
    let ls = text::lines_exec(&text::chars_of(rendered));
    let ghost lv = text::lines(rendered@);
    let mut out: Vec<(String, String)> = Vec::new();
    let mut i: usize = 0;
    while i < ls.len()
        invariant
            i <= ls.len(),
            lv == text::lines(rendered@),
            text::views(ls@) == lv,
            lines_parse(rendered@),
            pairs_view(out@) == declarations_of(lv.take(i as int)),
        decreases ls.len() - i,
    {
        assert(lv.take(i + 1).drop_last() =~= lv.take(i as int));
        assert(lv.take(i + 1).last() == ls@[i as int]@);
        assert(!declaration_panics(lv[i as int]));
        let line = text::string_of(&ls[i]);
        match declaration_from_line(line.as_str()) {
            Some(d) => {
                if first_value_exec(&out, d.key.as_str()).is_none() {
                    let ghost before = pairs_view(out@);
                    out.push((d.key, d.value));
                    assert(pairs_view(out@) =~= before.push((d@.key, d@.value)));
                }
            },
            None => {},
        }
        i = i + 1;
    }
    assert(lv.take(ls.len() as int) =~= lv);
    out
}

/// One line of a template source: a declaration that references a scheme
/// color, with a rendered color, becomes a control the first time its key is
/// seen.
pub open spec fn control_step(
    st: (Seq<ControlView>, Seq<Seq<char>>),
    line: Seq<char>,
    rendered: Seq<(Seq<char>, Seq<char>)>,
) -> (Seq<ControlView>, Seq<Seq<char>>) {
    if !text::contains(line, "{{"@) || !text::contains(line, "colors."@) {
        st
    } else {
        match declaration_of(line) {
            None => st,
            Some(d) => match source_path_of(d.value) {
                None => st,
                Some(sp) => match first_value(rendered, d.key) {
                    None => st,
                    Some(rv) => match hex_find(rv) {
                        None => st,
                        Some((s, n)) => if st.1.contains(d.key) {
                            st
                        } else {
                            (
                                st.0.push(
                                    ControlView {
                                        key: d.key,
                                        name: friendly_token_of(d.key),
                                        description: d.description,
                                        source_path: Some(sp),
                                        original_hex: text::upper(rv.subrange(s, s + n)),
                                    },
                                ),
                                st.1.push(d.key),
                            )
                        },
                    },
                },
            },
        }
    }
}

pub open spec fn controls_of(ls: Seq<Seq<char>>, rendered: Seq<(Seq<char>, Seq<char>)>) -> (Seq<ControlView>, Seq<Seq<char>>)
    decreases ls.len(),
{
    if ls.len() == 0 {
        (Seq::empty(), Seq::empty())
    } else {
        control_step(controls_of(ls.drop_last(), rendered), ls.last(), rendered)
    }
}

pub open spec fn controls_view(v: Seq<ParsedColorControl>) -> Seq<ControlView> {
    v.map_values(|c: ParsedColorControl| c@)
}

/// `parse_template_color_controls`: the color controls of a template source,
/// with the colors of its rendered output.
pub fn parse_template_color_controls(source: &str, rendered: &str) -> (r: Vec<ParsedColorControl>)
    requires
        lines_parse(source@),
        lines_parse(rendered@),
    ensures
        controls_view(r@) == controls_of(text::lines(source@), declarations_of(text::lines(rendered@))).0,
{
    let rv = rendered_declarations(rendered);
    let ghost rd = declarations_of(text::lines(rendered@));
    let ls = text::lines_exec(&text::chars_of(source));
    let ghost lv = text::lines(source@);
    let mut controls: Vec<ParsedColorControl> = Vec::new();
    let mut seen: Vec<String> = Vec::new();
    let mut i: usize = 0;
    while i < ls.len()
        invariant
            i <= ls.len(),
            lv == text::lines(source@),
            text::views(ls@) == lv,
            lines_parse(source@),
            pairs_view(rv@) == rd,
            (controls_view(controls@), crate::wallpaper::seen_view(seen@)) == controls_of(lv.take(i as int), rd),
        decreases ls.len() - i,
    {
        assert(lv.take(i + 1).drop_last() =~= lv.take(i as int));
        assert(lv.take(i + 1).last() == ls@[i as int]@);
        assert(!declaration_panics(lv[i as int]));
        let lc = &ls[i];
        if text::contains_str(lc, "{{") && text::contains_str(lc, "colors.") {
            let line = text::string_of(lc);
            if let Some(d) = declaration_from_line(line.as_str()) {
                if let Some(sp) = source_path_from_value(d.value.as_str()) {
                    if let Some(k) = first_value_exec(&rv, d.key.as_str()) {
                        let rendered_value = rv[k].1.as_str();
                        if let Some((before, matched)) = hex_find_exec(rendered_value) {
                            let ghost (s, n) = (before@.len() as int, matched@.len() as int);
                            assert(rendered_value@.subrange(s, s + n) =~= matched@) by {
                                lemma_hex_find_from_is_match(rendered_value@, 0);
                                assert(s + n <= rendered_value@.len());
                                assert(rendered_value@.take(s + n) == before@ + matched@);
                                assert forall|x: int| 0 <= x < n implies rendered_value@.subrange(s, s + n)[x] == matched@[x] by {
                                    assert(rendered_value@.take(s + n)[s + x] == rendered_value@[s + x]);
                                    assert(rendered_value@.take(s + n)[s + x] == (before@ + matched@)[s + x]);
                                }
                            }
                            let mut known = false;
                            let mut j: usize = 0;
                            while j < seen.len()
                                invariant
                                    j <= seen.len(),
                                    !known ==> forall|x: int| 0 <= x < j ==> #[trigger] seen@[x]@ != d.key@,
                                    known ==> crate::wallpaper::seen_view(seen@).contains(d.key@),
                                decreases seen.len() - j,
                            {
                                if crate::context::str_eq(seen[j].as_str(), d.key.as_str()) {
                                    known = true;
                                    assert(crate::wallpaper::seen_view(seen@)[j as int] == d.key@);
                                }
                                j = j + 1;
                            }
                            if !known {
                                assert(!crate::wallpaper::seen_view(seen@).contains(d.key@)) by {
                                    if crate::wallpaper::seen_view(seen@).contains(d.key@) {
                                        let x = choose|x: int| 0 <= x < crate::wallpaper::seen_view(seen@).len() && crate::wallpaper::seen_view(seen@)[x] == d.key@;
                                        assert(seen@[x]@ == d.key@);
                                    }
                                }
                                let original = text::string_of(&text::upper_exec(&text::chars_of(matched.as_str())));
                                let name = friendly_token_name(d.key.as_str());
                                let ghost (cb, sb) = (controls_view(controls@), crate::wallpaper::seen_view(seen@));
                                let key2 = d.key.clone();
                                let c = ParsedColorControl {
                                    key: d.key,
                                    name,
                                    description: d.description,
                                    source_path: Some(sp),
                                    original_hex: original,
                                };
                                controls.push(c);
                                seen.push(key2);
                                assert(controls_view(controls@) =~= cb.push(c@));
                                assert(crate::wallpaper::seen_view(seen@) =~= sb.push(key2@));
                            }
                        }
                    }
                }
            }
        }
        i = i + 1;
    }
    assert(lv.take(ls.len() as int) =~= lv);
    controls
}

/// The hexadecimal color of the first override for `key`.
pub open spec fn override_for(ovs: Seq<(String, TemplateColorOverride)>, key: Seq<char>) -> Option<TemplateColorOverride>
    decreases ovs.len(),
{
    if ovs.len() == 0 {
        None
    } else if ovs[0].0@ == key {
        Some(ovs[0].1)
    } else {
        override_for(ovs.drop_first(), key)
    }
}

fn override_for_exec<'a>(ovs: &'a Vec<(String, TemplateColorOverride)>, key: &str) -> (r: Option<&'a TemplateColorOverride>)
    ensures
        r matches Some(o) ==> override_for(ovs@, key@) == Some(*o),
        r is None ==> override_for(ovs@, key@) is None,
{
    let mut i: usize = 0;
    assert(ovs@.skip(0) =~= ovs@);
    while i < ovs.len()
        invariant
            i <= ovs.len(),
            override_for(ovs@.skip(i as int), key@) == override_for(ovs@, key@),
        decreases ovs.len() - i,
    {
        assert(ovs@.skip(i as int)[0] == ovs@[i as int]);
        if crate::context::str_eq(ovs[i].0.as_str(), key) {
            return Some(&ovs[i].1);
        }
        assert(ovs@.skip(i as int).drop_first() =~= ovs@.skip(i + 1));
        i = i + 1;
    }
    None
}

/// A rendered line with its color replaced where it declares an overridden
/// key: the first color of the line takes the override, keeping the alpha of
/// an eight-digit color.
pub open spec fn patched_line(line: Seq<char>, ovs: Seq<(String, TemplateColorOverride)>) -> Seq<char> {
    match declaration_of(line) {
        Some(d) => match override_for(ovs, d.key) {
            Some(o) => match hex_find(line) {
                Some((s, n)) => line.take(s) + (if n == 9 {
                    override_hex(o) + line.subrange(s + 7, s + 9)
                } else {
                    override_hex(o)
                }) + line.skip(s + n),
                None => line,
            },
            None => line,
        },
        None => line,
    }
}

/// Every line patched and followed by a line break.
pub open spec fn patched_lines(ls: Seq<Seq<char>>, ovs: Seq<(String, TemplateColorOverride)>) -> Seq<char>
    decreases ls.len(),
{
    if ls.len() == 0 {
        Seq::empty()
    } else {
        patched_lines(ls.drop_last(), ovs) + patched_line(ls.last(), ovs) + seq!['\n']
    }
}

/// `apply_template_overrides`: with no overrides for the template, the
/// rendered text as it is.
pub open spec fn apply_overrides_of(rendered: Seq<char>, ovs: Option<Seq<(String, TemplateColorOverride)>>) -> Seq<char> {
    match ovs {
        None => rendered,
        Some(o) => patched_lines(text::lines(rendered), o),
    }
}

/// `apply_template_overrides`, given the template's overrides where it has any.
pub fn apply_template_overrides(
    template_overrides: Option<&Vec<(String, TemplateColorOverride)>>,
    rendered: &str,
) -> (r: String)
    requires
        lines_parse(rendered@),
    ensures
        r@ == apply_overrides_of(
            rendered@,
            match template_overrides {
                Some(v) => Some(v@),
                None => None,
            },
        ),
{
    let ovs = match template_overrides {
        None => {
            return String::from_str(rendered);
        },
        Some(o) => o,
    };
    let ls = text::lines_exec(&text::chars_of(rendered));
    let ghost lv = text::lines(rendered@);
    let mut out: Vec<char> = Vec::new();
    let mut i: usize = 0;
    while i < ls.len()
        invariant
            i <= ls.len(),
            lv == text::lines(rendered@),
            text::views(ls@) == lv,
            lines_parse(rendered@),
            out@ == patched_lines(lv.take(i as int), ovs@),
        decreases ls.len() - i,
    {
        assert(lv.take(i + 1).drop_last() =~= lv.take(i as int));
        assert(lv.take(i + 1).last() == ls@[i as int]@);
        assert(!declaration_panics(lv[i as int]));
        let ghost before = out@;
        let line = text::string_of(&ls[i]);
        let mut done = false;
        if let Some(d) = declaration_from_line(line.as_str()) {
            if let Some(o) = override_for_exec(ovs, d.key.as_str()) {
                if let Some((b, m)) = hex_find_exec(line.as_str()) {
                    let ghost (s, n) = (b@.len() as int, m@.len() as int);
                    let lc = &ls[i];
                    let bv = text::chars_of(b.as_str());
                    let mv = text::chars_of(m.as_str());
                    proof {
                        lemma_hex_find_from_is_match(line@, 0);
                        assert(hex_match_at(line@, s) == Some(n));
                        assert(lc@ == line@);
                    }
                    assert(bv.len() + mv.len() <= lc.len());
                    text::push_all(&mut out, &bv);
                    text::push_str(&mut out, o.hex());
                    if mv.len() == 9 {
                        let alpha = text::slice_of(lc, bv.len() + 7, bv.len() + 9);
                        text::push_all(&mut out, &alpha);
                    }
                    let tail = text::slice_of(lc, bv.len() + mv.len(), lc.len());
                    text::push_all(&mut out, &tail);
                    out.push('\n');
                    proof {
                        assert(line@.take(s + n) == b@ + m@);
                        assert(b@ =~= line@.take(s)) by {
                            assert forall|x: int| 0 <= x < s implies b@[x] == line@[x] by {
                                assert(line@.take(s + n)[x] == (b@ + m@)[x]);
                            }
                        }
                        assert(tail@ =~= line@.skip(s + n));
                        assert(out@ =~= before + patched_line(line@, ovs@) + seq!['\n']);
                    }
                    done = true;
                }
            }
        }
        if !done {
            text::push_all(&mut out, &ls[i]);
            out.push('\n');
            assert(out@ =~= before + patched_line(line@, ovs@) + seq!['\n']);
        }
        i = i + 1;
    }
    assert(lv.take(ls.len() as int) =~= lv);
    text::string_of(&out)
}

/// A leftmost match is a match, within the text.
proof fn lemma_hex_find_from_is_match(s: Seq<char>, i: int)
    ensures
        hex_find_from(s, i) matches Some((a, n)) ==> hex_match_at(s, a) == Some(n) && i <= a && a + n <= s.len(),
    decreases s.len() - i,
{
    if 0 <= i < s.len() && hex_match_at(s, i) is None {
        lemma_hex_find_from_is_match(s, i + 1);
    }
}

/// The control as the interface shows it: the overridden color where the
/// user set one, the color the template first rendered as the original.
pub open spec fn merged_control(c: ControlView, o: Option<TemplateColorOverride>) -> (Seq<char>, Seq<char>, bool) {
    let original = match o {
        Some(x) => match override_original(x) {
            Some(h) => h,
            None => c.original_hex,
        },
        None => c.original_hex,
    };
    let current = match o {
        Some(x) => override_hex(x),
        None => original,
    };
    (original, current, o is Some)
}

/// The controls of a template with its overrides applied.
pub fn color_controls(
    controls: Vec<ParsedColorControl>,
    template_overrides: Option<&Vec<(String, TemplateColorOverride)>>,
) -> (r: Vec<TemplateColorControl>)
    ensures
        r@.len() == controls@.len(),
        forall|i: int| 0 <= i < r@.len() ==> {
            let c = controls@[i]@;
            let o = match template_overrides {
                Some(v) => override_for(v@, c.key),
                None => None,
            };
            &&& (#[trigger] r@[i]).key@ == c.key
            &&& r@[i].name@ == c.name
            &&& opt_view(r@[i].description) == c.description
            &&& opt_view(r@[i].source_path) == c.source_path
            &&& (r@[i].original_hex@, r@[i].current_hex@, r@[i].overridden) == merged_control(c, o)
        },
{
    let ghost cv = controls@;
    let total = controls.len();
    let mut rest = controls;
    let mut out: Vec<TemplateColorControl> = Vec::new();
    let mut i: usize = 0;
    while rest.len() > 0
        invariant
            i + rest.len() == cv.len(),
            cv.len() == total,
            rest@ == cv.skip(i as int),
            out@.len() == i,
            forall|k: int| 0 <= k < i ==> {
                let c = cv[k]@;
                let o = match template_overrides {
                    Some(v) => override_for(v@, c.key),
                    None => None,
                };
                &&& (#[trigger] out@[k]).key@ == c.key
                &&& out@[k].name@ == c.name
                &&& opt_view(out@[k].description) == c.description
                &&& opt_view(out@[k].source_path) == c.source_path
                &&& (out@[k].original_hex@, out@[k].current_hex@, out@[k].overridden) == merged_control(c, o)
            },
        decreases rest.len(),
    {
        let c = rest.remove(0);
        assert(cv.skip(i as int)[0] == c);
        assert(cv.skip(i as int).remove(0) =~= cv.skip(i + 1));
        let o = match template_overrides {
            Some(v) => override_for_exec(v, c.key.as_str()),
            None => None,
        };
        let original = match o {
            Some(x) => match x.original_hex() {
                Some(h) => String::from_str(h),
                None => c.original_hex,
            },
            None => c.original_hex,
        };
        let current = match o {
            Some(x) => String::from_str(x.hex()),
            None => original.clone(),
        };
        out.push(
            TemplateColorControl {
                key: c.key,
                name: c.name,
                description: c.description,
                source_path: c.source_path,
                original_hex: original,
                current_hex: current,
                overridden: o.is_some(),
            },
        );
        i = i + 1;
    }
    out
}


// ── Groups of controls ───────────────────────────────────────────────────────

/// A template's group of controls, named and filed as the template's
/// metadata says (looked up by the input's file name).
pub fn color_group(
    template_name: String,
    file_name: &str,
    output_path: Option<String>,
    controls: Vec<TemplateColorControl>,
) -> (r: TemplateColorGroup)
    ensures
        r.template_name == template_name,
        r.display_name@ == crate::template_meta::metadata_of(file_name@, file_name@, true).display_name,
        r.target_app@ == crate::template_meta::metadata_of(file_name@, file_name@, true).target_app,
        r.output_path == output_path,
        r.controls == controls,
{
    let meta = crate::template_meta::template_metadata(file_name, file_name, true);
    TemplateColorGroup {
        template_name,
        display_name: meta.display_name,
        target_app: meta.target_app,
        output_path,
        controls,
    }
}

/// `a` goes before `b`: by application, then display name.
pub open spec fn group_before(a: (Seq<char>, Seq<char>), b: (Seq<char>, Seq<char>)) -> bool {
    crate::wallpaper::text_lt(a.0, b.0) || (a.0 == b.0 && crate::wallpaper::text_lt(a.1, b.1))
}

pub open spec fn group_key(g: TemplateColorGroup) -> (Seq<char>, Seq<char>) {
    (g.target_app@, g.display_name@)
}

pub open spec fn group_insert_pos(s: Seq<TemplateColorGroup>, a: TemplateColorGroup) -> nat
    decreases s.len(),
{
    if s.len() == 0 || group_before(group_key(a), group_key(s[0])) {
        0
    } else {
        1 + group_insert_pos(s.drop_first(), a)
    }
}

/// The stable sort by application and display name.
pub open spec fn sort_groups_of(s: Seq<TemplateColorGroup>) -> Seq<TemplateColorGroup>
    decreases s.len(),
{
    if s.len() == 0 {
        s
    } else {
        let r = sort_groups_of(s.drop_last());
        r.insert(group_insert_pos(r, s.last()) as int, s.last())
    }
}

proof fn lemma_group_insert_pos(s: Seq<TemplateColorGroup>, a: TemplateColorGroup, i: int)
    requires
        0 <= i <= s.len(),
        forall|k: int| 0 <= k < i ==> !group_before(group_key(a), group_key(#[trigger] s[k])),
        i < s.len() ==> group_before(group_key(a), group_key(s[i])),
    ensures
        group_insert_pos(s, a) == i,
    decreases i,
{
    if i > 0 {
        assert(!group_before(group_key(a), group_key(s[0])));
        assert forall|k: int| 0 <= k < i - 1 implies !group_before(group_key(a), group_key(#[trigger] s.drop_first()[k])) by {
            assert(s.drop_first()[k] == s[k + 1]);
        }
        lemma_group_insert_pos(s.drop_first(), a, i - 1);
    }
}

/// No group is listed after one that it goes before.
pub open spec fn groups_sorted(s: Seq<TemplateColorGroup>) -> bool {
    forall|i: int, j: int| 0 <= i < j < s.len() ==> !group_before(group_key(#[trigger] s[j]), group_key(#[trigger] s[i]))
}

proof fn lemma_group_insert_pos_facts(s: Seq<TemplateColorGroup>, a: TemplateColorGroup)
    ensures
        group_insert_pos(s, a) <= s.len(),
        forall|k: int| 0 <= k < group_insert_pos(s, a) ==> !group_before(group_key(a), group_key(#[trigger] s[k])),
        group_insert_pos(s, a) < s.len() ==> group_before(group_key(a), group_key(s[group_insert_pos(s, a) as int])),
    decreases s.len(),
{
    if s.len() > 0 && !group_before(group_key(a), group_key(s[0])) {
        lemma_group_insert_pos_facts(s.drop_first(), a);
        assert forall|k: int| 0 <= k < group_insert_pos(s, a) implies !group_before(group_key(a), group_key(#[trigger] s[k])) by {
            if k > 0 {
                assert(s[k] == s.drop_first()[k - 1]);
            }
        }
    }
}

proof fn lemma_group_before_facts(a: (Seq<char>, Seq<char>), b: (Seq<char>, Seq<char>), c: (Seq<char>, Seq<char>))
    ensures
        group_before(a, b) ==> !group_before(b, a),
        group_before(a, b) && !group_before(c, b) ==> !group_before(c, a),
{
    if group_before(a, b) {
        if crate::wallpaper::text_lt(a.0, b.0) {
            crate::wallpaper::lemma_text_lt_asymmetric(a.0, b.0);
        } else {
            crate::wallpaper::lemma_text_lt_asymmetric(a.1, b.1);
            crate::wallpaper::lemma_text_lt_irreflexive(a.0);
        }
        if !group_before(c, b) && group_before(c, a) {
            crate::wallpaper::lemma_text_lt_total(c.0, b.0);
            if crate::wallpaper::text_lt(c.0, a.0) {
                if crate::wallpaper::text_lt(a.0, b.0) {
                    crate::wallpaper::lemma_text_lt_transitive(c.0, a.0, b.0);
                }
            } else if crate::wallpaper::text_lt(a.0, b.0) {
            } else {
                crate::wallpaper::lemma_text_lt_transitive(c.1, a.1, b.1);
            }
        }
    }
}

/// The sort of the color groups lists the same groups, each as often, in
/// order by application and display name.
pub proof fn lemma_sort_groups_sorted(s: Seq<TemplateColorGroup>)
    ensures
        sort_groups_of(s).len() == s.len(),
        sort_groups_of(s).to_multiset() == s.to_multiset(),
        groups_sorted(sort_groups_of(s)),
    decreases s.len(),
{
    if s.len() > 0 {
        let r = sort_groups_of(s.drop_last());
        let a = s.last();
        lemma_sort_groups_sorted(s.drop_last());
        lemma_group_insert_pos_facts(r, a);
        let k = group_insert_pos(r, a) as int;
        let out = r.insert(k, a);
        assert(out == sort_groups_of(s));
        vstd::seq_lib::to_multiset_insert(r, k, a);
        vstd::seq_lib::to_multiset_build(s.drop_last(), a);
        assert(s.drop_last().push(a) =~= s);
        assert forall|i: int, j: int| 0 <= i < j < out.len() implies !group_before(
            group_key(#[trigger] out[j]),
            group_key(#[trigger] out[i]),
        ) by {
            if j < k {
                assert(out[i] == r[i] && out[j] == r[j]);
            } else if j == k {
                assert(out[i] == r[i]);
            } else if i < k {
                assert(out[i] == r[i] && out[j] == r[j - 1]);
            } else if i == k {
                assert(out[j] == r[j - 1]);
                if j - 1 > k {
                    assert(!group_before(group_key(r[j - 1]), group_key(r[k])));
                }
                lemma_group_before_facts(group_key(a), group_key(r[k]), group_key(r[j - 1]));
            } else {
                assert(out[i] == r[i - 1] && out[j] == r[j - 1]);
            }
        }
    }
}

/// The groups with the key `k`, in order.
pub open spec fn with_key(s: Seq<TemplateColorGroup>, k: (Seq<char>, Seq<char>)) -> Seq<TemplateColorGroup>
    decreases s.len(),
{
    if s.len() == 0 {
        s
    } else {
        let r = with_key(s.drop_last(), k);
        if group_key(s.last()) == k {
            r.push(s.last())
        } else {
            r
        }
    }
}

proof fn lemma_with_key_add(a: Seq<TemplateColorGroup>, b: Seq<TemplateColorGroup>, k: (Seq<char>, Seq<char>))
    ensures
        with_key(a + b, k) == with_key(a, k) + with_key(b, k),
    decreases b.len(),
{
    if b.len() == 0 {
        assert(a + b =~= a);
        assert(with_key(a, k) + with_key(b, k) =~= with_key(a, k));
    } else {
        lemma_with_key_add(a, b.drop_last(), k);
        assert((a + b).drop_last() =~= a + b.drop_last());
        assert((a + b).last() == b.last());
        if group_key(b.last()) == k {
            assert(with_key(a, k) + with_key(b.drop_last(), k).push(b.last()) =~= (with_key(a, k) + with_key(
                b.drop_last(),
                k,
            )).push(b.last()));
        }
    }
}

proof fn lemma_with_key_none(b: Seq<TemplateColorGroup>, k: (Seq<char>, Seq<char>))
    requires
        forall|i: int| 0 <= i < b.len() ==> group_key(#[trigger] b[i]) != k,
    ensures
        with_key(b, k) == Seq::<TemplateColorGroup>::empty(),
    decreases b.len(),
{
    if b.len() > 0 {
        assert forall|i: int| 0 <= i < b.drop_last().len() implies group_key(#[trigger] b.drop_last()[i]) != k by {
            assert(b.drop_last()[i] == b[i]);
        }
        lemma_with_key_none(b.drop_last(), k);
        assert(group_key(b[b.len() - 1]) != k);
    }
}

/// The sort is stable: the groups of each key come out in the order they
/// came in.
pub proof fn lemma_sort_groups_stable(s: Seq<TemplateColorGroup>, k: (Seq<char>, Seq<char>))
    ensures
        with_key(sort_groups_of(s), k) == with_key(s, k),
    decreases s.len(),
{
    if s.len() > 0 {
        let s1 = s.drop_last();
        let a = s.last();
        let r = sort_groups_of(s1);
        lemma_sort_groups_stable(s1, k);
        lemma_sort_groups_sorted(s1);
        lemma_group_insert_pos_facts(r, a);
        let pos = group_insert_pos(r, a) as int;
        let out = r.insert(pos, a);
        assert(out == sort_groups_of(s));
        let front = r.take(pos);
        let back = r.skip(pos);
        assert(r =~= front + back);
        assert(out =~= front + seq![a] + back);
        lemma_with_key_add(front, back, k);
        lemma_with_key_add(front + seq![a], back, k);
        lemma_with_key_add(front, seq![a], k);
        assert(seq![a].drop_last() =~= Seq::<TemplateColorGroup>::empty());
        assert(seq![a].last() == a);
        assert(with_key(seq![a].drop_last(), k) == Seq::<TemplateColorGroup>::empty());
        assert(Seq::<TemplateColorGroup>::empty().push(a) =~= seq![a]);
        if group_key(a) == k {
            assert forall|i: int| 0 <= i < back.len() implies group_key(#[trigger] back[i]) != k by {
                assert(back[i] == r[pos + i]);
                let ka = group_key(a);
                let kp = group_key(r[pos]);
                if group_key(r[pos + i]) == k {
                    if i == 0 {
                        lemma_group_before_facts(ka, ka, ka);
                    } else {
                        assert(!group_before(group_key(r[pos + i]), kp));
                    }
                }
            }
            lemma_with_key_none(back, k);
            assert(with_key(seq![a], k) =~= seq![a]);
            assert(with_key(r, k) =~= with_key(front, k));
            assert(with_key(out, k) =~= with_key(front, k) + seq![a]);
            assert(with_key(s, k) == with_key(s1, k).push(a));
            assert(with_key(s1, k).push(a) =~= with_key(front, k) + seq![a]);
        } else {
            assert(with_key(seq![a], k) =~= Seq::<TemplateColorGroup>::empty());
            assert(with_key(front, k) + Seq::<TemplateColorGroup>::empty() =~= with_key(front, k));
            assert(with_key(out, k) =~= with_key(r, k));
            assert(with_key(s, k) == with_key(s1, k));
        }
    }
}

fn group_before_exec(a: &TemplateColorGroup, b: &TemplateColorGroup) -> (r: bool)
    ensures
        r == group_before(group_key(*a), group_key(*b)),
{
    let at = text::chars_of(a.target_app.as_str());
    let bt = text::chars_of(b.target_app.as_str());
    if crate::wallpaper::text_lt_exec(&at, &bt) {
        return true;
    }
    if !text::seq_eq(&at, &bt) {
        return false;
    }
    crate::wallpaper::text_lt_exec(&text::chars_of(a.display_name.as_str()), &text::chars_of(b.display_name.as_str()))
}

/// The groups in the order the interface lists them.
pub fn sort_color_groups(v: Vec<TemplateColorGroup>) -> (r: Vec<TemplateColorGroup>)
    ensures
        r@ == sort_groups_of(v@),
        r@.to_multiset() == v@.to_multiset(),
        groups_sorted(r@),
        forall|k: (Seq<char>, Seq<char>)| #[trigger] with_key(r@, k) == with_key(v@, k),
{
    proof {
        lemma_sort_groups_sorted(v@);
        assert forall|k: (Seq<char>, Seq<char>)| #[trigger] with_key(sort_groups_of(v@), k) == with_key(v@, k) by {
            lemma_sort_groups_stable(v@, k);
        }
    }
    let ghost orig = v@;
    let ghost n = v.len();
    let mut rest = v;
    let mut out: Vec<TemplateColorGroup> = Vec::new();
    assert(orig.take(0) =~= Seq::<TemplateColorGroup>::empty());
    assert(orig.skip(0) =~= orig);
    while rest.len() > 0
        invariant
            rest.len() <= n,
            orig.len() == n,
            rest@ == orig.skip(n - rest.len()),
            out@ == sort_groups_of(orig.take(n - rest.len())),
        decreases rest.len(),
    {
        let ghost done = n - rest.len();
        let ghost rv = rest@;
        let a = rest.remove(0);
        assert(rv[0] == a);
        assert(rest@ =~= orig.skip(done + 1));
        assert(orig.take(done + 1).drop_last() =~= orig.take(done as int));
        assert(orig.take(done + 1).last() == a);
        let ghost ov = out@;
        let mut k: usize = 0;
        while k < out.len() && !group_before_exec(&a, &out[k])
            invariant
                k <= out.len(),
                ov == out@,
                forall|j: int| 0 <= j < k ==> !group_before(group_key(a), group_key(#[trigger] ov[j])),
            decreases out.len() - k,
        {
            k = k + 1;
        }
        proof {
            lemma_group_insert_pos(ov, a, k as int);
        }
        out.insert(k, a);
    }
    assert(orig.take(n as int) =~= orig);
    out
}

// ── Storing overrides ────────────────────────────────────────────────────────

/// No key has two overrides.
pub open spec fn keys_unique(v: Seq<(String, TemplateColorOverride)>) -> bool {
    forall|i: int, j: int| 0 <= i < j < v.len() ==> (#[trigger] v[i]).0@ != (#[trigger] v[j]).0@
}

/// Each entry of `kept` from `from` on has the key of an entry of `src`
/// before `upto`.
pub open spec fn keys_from(
    kept: Seq<(String, TemplateColorOverride)>,
    from: int,
    src: Seq<(String, TemplateColorOverride)>,
    upto: int,
) -> bool {
    forall|i: int| from <= i < kept.len() ==> exists|j: int| 0 <= j < upto && #[trigger] kept[i].0@ == src[j].0@
}

/// `set_template_color_override` on one template's overrides: the key now maps
/// to the new color (with the color it replaces, where known).
pub fn set_override(
    values: &mut Vec<(String, TemplateColorOverride)>,
    key: String,
    hex: String,
    original_hex: Option<String>,
)
    ensures
        forall|k: Seq<char>| #[trigger] override_for(final(values)@, k) == if k == key@ {
            Some(TemplateColorOverride::Detailed { hex, original_hex })
        } else {
            override_for(old(values)@, k)
        },
        keys_unique(old(values)@) ==> keys_unique(final(values)@),
{
    let ghost old_v = values@;
    let mut kept: Vec<(String, TemplateColorOverride)> = Vec::new();
    kept.push((key.clone(), TemplateColorOverride::Detailed { hex, original_hex }));
    let ghost first = kept@[0];
    let mut rest: Vec<(String, TemplateColorOverride)> = Vec::new();
    std::mem::swap(&mut rest, values);
    let ghost n = rest.len();
    assert(old_v.skip(0) =~= old_v);
    proof {
        let empty = Seq::<(String, TemplateColorOverride)>::empty();
        assert(kept@ =~= empty.push(first));
        assert(old_v.take(0) =~= empty);
        assert forall|k: Seq<char>| #[trigger] override_for(kept@, k) == if k == key@ {
            Some(first.1)
        } else {
            override_for(old_v.take(0), k)
        } by {
            lemma_override_for_push(empty, first, k);
        }
    }
    while rest.len() > 0
        invariant
            n == old_v.len(),
            rest.len() <= n,
            rest@ == old_v.skip(n - rest.len()),
            kept@.len() >= 1,
            kept@[0] == first,
            first.0@ == key@,
            forall|i: int| 1 <= i < kept@.len() ==> (#[trigger] kept@[i]).0@ != key@,
            keys_from(kept@, 1, old_v, n - rest.len()),
            keys_unique(old_v) ==> keys_unique(kept@),
            forall|k: Seq<char>| #[trigger] override_for(kept@, k) == if k == key@ {
                Some(first.1)
            } else {
                override_for(old_v.take(n - rest.len()), k)
            },
        decreases rest.len(),
    {
        let ghost done = n - rest.len();
        let e = rest.remove(0);
        assert(rest@ =~= old_v.skip(done + 1));
        assert(e == old_v[done as int]);
        let ghost before = kept@;
        if !crate::context::str_eq(e.0.as_str(), key.as_str()) {
            kept.push(e);
            proof {
                assert forall|i: int| 1 <= i < kept@.len() implies exists|j: int| 0 <= j < done + 1 && #[trigger] kept@[i].0@ == old_v[j].0@ by {
                    if i < before.len() {
                        assert(kept@[i] == before[i]);
                    } else {
                        assert(kept@[i].0@ == old_v[done as int].0@);
                    }
                }
                if keys_unique(old_v) {
                    assert forall|a: int, b: int| 0 <= a < b < kept@.len() implies (#[trigger] kept@[a]).0@ != (#[trigger] kept@[b]).0@ by {
                        if b == before.len() {
                            assert(kept@[b] == e);
                            if a >= 1 {
                                assert(kept@[a] == before[a]);
                                let j = choose|j: int| 0 <= j < done && #[trigger] before[a].0@ == old_v[j].0@;
                                assert(old_v[j].0@ != old_v[done as int].0@);
                            }
                        } else {
                            assert(kept@[a] == before[a] && kept@[b] == before[b]);
                        }
                    }
                }
                assert forall|k: Seq<char>| #[trigger] override_for(kept@, k) == if k == key@ {
                    Some(first.1)
                } else {
                    override_for(old_v.take(done + 1), k)
                } by {
                    lemma_override_for_push(before, e, k);
                    lemma_override_for_push(old_v.take(done as int), e, k);
                    assert(old_v.take(done as int).push(e) =~= old_v.take(done + 1));
                }
            }
        } else {
            proof {
                assert forall|k: Seq<char>| #[trigger] override_for(kept@, k) == if k == key@ {
                    Some(first.1)
                } else {
                    override_for(old_v.take(done + 1), k)
                } by {
                    lemma_override_for_push(old_v.take(done as int), e, k);
                    assert(old_v.take(done as int).push(e) =~= old_v.take(done + 1));
                }
            }
        }
    }
    assert(old_v.take(n as int) =~= old_v);
    *values = kept;
}

proof fn lemma_override_for_push(s: Seq<(String, TemplateColorOverride)>, e: (String, TemplateColorOverride), k: Seq<char>)
    ensures
        override_for(s.push(e), k) == if override_for(s, k) is Some {
            override_for(s, k)
        } else if e.0@ == k {
            Some(e.1)
        } else {
            None
        },
    decreases s.len(),
{
    if s.len() > 0 {
        assert(s.push(e)[0] == s[0]);
        assert(s.push(e).drop_first() =~= s.drop_first().push(e));
        lemma_override_for_push(s.drop_first(), e, k);
    } else {
        assert(s.push(e) =~= seq![e]);
        assert(seq![e][0] == e);
        assert(seq![e].drop_first() =~= Seq::<(String, TemplateColorOverride)>::empty());
        assert(override_for(Seq::<(String, TemplateColorOverride)>::empty(), k) is None);
        assert(override_for(s, k) is None);
    }
}

/// Takes one key's override out of a template's overrides; what it held.
pub fn remove_override(values: &mut Vec<(String, TemplateColorOverride)>, key: &str) -> (r: Option<
    TemplateColorOverride,
>)
    ensures
        r == override_for(old(values)@, key@),
        forall|k: Seq<char>| #[trigger] override_for(final(values)@, k) == if k == key@ {
            None
        } else {
            override_for(old(values)@, k)
        },
        keys_unique(old(values)@) ==> keys_unique(final(values)@),
{
    let ghost old_v = values@;
    let mut kept: Vec<(String, TemplateColorOverride)> = Vec::new();
    let mut found: Option<TemplateColorOverride> = None;
    let mut rest: Vec<(String, TemplateColorOverride)> = Vec::new();
    std::mem::swap(&mut rest, values);
    let ghost n = rest.len();
    assert(old_v.skip(0) =~= old_v);
    while rest.len() > 0
        invariant
            n == old_v.len(),
            rest.len() <= n,
            rest@ == old_v.skip(n - rest.len()),
            found == override_for(old_v.take(n - rest.len()), key@),
            keys_from(kept@, 0, old_v, n - rest.len()),
            keys_unique(old_v) ==> keys_unique(kept@),
            forall|k: Seq<char>| #[trigger] override_for(kept@, k) == if k == key@ {
                None
            } else {
                override_for(old_v.take(n - rest.len()), k)
            },
        decreases rest.len(),
    {
        let ghost done = n - rest.len();
        let e = rest.remove(0);
        assert(rest@ =~= old_v.skip(done + 1));
        assert(e == old_v[done as int]);
        assert(old_v.take(done as int).push(e) =~= old_v.take(done + 1));
        proof {
            lemma_override_for_push(old_v.take(done as int), e, key@);
        }
        let ghost before = kept@;
        if crate::context::str_eq(e.0.as_str(), key) {
            if found.is_none() {
                found = Some(e.1);
            }
            proof {
                assert forall|k: Seq<char>| #[trigger] override_for(kept@, k) == if k == key@ {
                    None
                } else {
                    override_for(old_v.take(done + 1), k)
                } by {
                    lemma_override_for_push(old_v.take(done as int), e, k);
                }
            }
        } else {
            kept.push(e);
            proof {
                assert forall|i: int| 0 <= i < kept@.len() implies exists|j: int| 0 <= j < done + 1 && #[trigger] kept@[i].0@ == old_v[j].0@ by {
                    if i < before.len() {
                        assert(kept@[i] == before[i]);
                    } else {
                        assert(kept@[i].0@ == old_v[done as int].0@);
                    }
                }
                if keys_unique(old_v) {
                    assert forall|a: int, b: int| 0 <= a < b < kept@.len() implies (#[trigger] kept@[a]).0@ != (#[trigger] kept@[b]).0@ by {
                        if b == before.len() {
                            assert(kept@[b] == e);
                            assert(kept@[a] == before[a]);
                            let j = choose|j: int| 0 <= j < done && #[trigger] before[a].0@ == old_v[j].0@;
                            assert(old_v[j].0@ != old_v[done as int].0@);
                        } else {
                            assert(kept@[a] == before[a] && kept@[b] == before[b]);
                        }
                    }
                }
                assert forall|k: Seq<char>| #[trigger] override_for(kept@, k) == if k == key@ {
                    None
                } else {
                    override_for(old_v.take(done + 1), k)
                } by {
                    lemma_override_for_push(before, e, k);
                    lemma_override_for_push(old_v.take(done as int), e, k);
                }
            }
        }
    }
    assert(old_v.take(n as int) =~= old_v);
    *values = kept;
    found
}

/// The colors to write back when a template's overrides are dropped: each
/// key with the color it replaced, where that is known.
pub open spec fn restore_values_of(values: Seq<(String, TemplateColorOverride)>) -> Seq<(Seq<char>, Seq<char>)>
    decreases values.len(),
{
    if values.len() == 0 {
        Seq::empty()
    } else {
        let before = restore_values_of(values.drop_last());
        match override_original(values.last().1) {
            Some(o) => before.push((values.last().0@, o)),
            None => before,
        }
    }
}

pub fn restore_values(values: &Vec<(String, TemplateColorOverride)>) -> (r: Vec<(String, String)>)
    ensures
        r@.map_values(|p: (String, String)| (p.0@, p.1@)) == restore_values_of(values@),
{
    let mut out: Vec<(String, String)> = Vec::new();
    let mut i: usize = 0;
    assert(out@.map_values(|p: (String, String)| (p.0@, p.1@)) =~= restore_values_of(values@.take(0)));
    while i < values.len()
        invariant
            i <= values.len(),
            out@.map_values(|p: (String, String)| (p.0@, p.1@)) == restore_values_of(values@.take(i as int)),
        decreases values.len() - i,
    {
        assert(values@.take(i + 1).drop_last() =~= values@.take(i as int));
        assert(values@.take(i + 1).last() == values@[i as int]);
        let ghost before = out@.map_values(|p: (String, String)| (p.0@, p.1@));
        if let Some(o) = values[i].1.original_hex() {
            out.push((values[i].0.clone(), String::from_str(o)));
            assert(out@.map_values(|p: (String, String)| (p.0@, p.1@)) =~= before.push(
                (values@[i as int].0@, o@),
            ));
        }
        i = i + 1;
    }
    assert(values@.take(values.len() as int) =~= values@);
    out
}

/// `patch_template_output_tokens` on the rendered output: each key's color
/// written back as a plain override.
pub open spec fn legacy_overrides(values: Seq<(String, String)>) -> Seq<(String, TemplateColorOverride)> {
    values.map_values(|p: (String, String)| (p.0, TemplateColorOverride::Legacy(p.1)))
}

pub fn restore_output_tokens(rendered: &str, values: &Vec<(String, String)>) -> (r: String)
    requires
        lines_parse(rendered@),
    ensures
        r@ == apply_overrides_of(rendered@, Some(legacy_overrides(values@))),
{
    let mut ovs: Vec<(String, TemplateColorOverride)> = Vec::new();
    let mut i: usize = 0;
    while i < values.len()
        invariant
            i <= values.len(),
            ovs@ == legacy_overrides(values@.take(i as int)),
        decreases values.len() - i,
    {
        ovs.push((values[i].0.clone(), TemplateColorOverride::Legacy(values[i].1.clone())));
        i = i + 1;
        assert(ovs@ =~= legacy_overrides(values@.take(i as int)));
    }
    assert(values@.take(values.len() as int) =~= values@);
    apply_template_overrides(Some(&ovs), rendered)
}

/// `resolve_template_input`: a relative input taken from the config's
/// folder, then `~/` expanded.
pub fn resolve_template_input(config_dir: &str, input_path: &str, home: Option<&str>) -> (r: String)
    ensures
        r@ == crate::catalog::expand_tilde_of(
            if input_path@.len() > 0 && input_path@[0] == '/' {
                input_path@
            } else {
                crate::path::join(config_dir@, input_path@)
            },
            crate::wallpaper::opt_str(home),
        ),
{
    let v = text::chars_of(input_path);
    let abs = if v.len() > 0 && v[0] == '/' {
        String::from_str(input_path)
    } else {
        crate::path::join_exec(config_dir, input_path)
    };
    let av = text::chars_of(abs.as_str());
    match home {
        Some(h) => if text::starts_with_str(&av, "~/") {
            proof {
                reveal_strlit("~/");
            }
            let rest = text::slice_of(&av, 2, av.len());
            assert(rest@ =~= abs@.skip(2));
            crate::path::join_exec(h, text::string_of(&rest).as_str())
        } else {
            abs
        },
        None => abs,
    }
}

/// An overridden declaration line, rendered alone, comes out with its first
/// color replaced by the override: an eight-digit color keeps its own alpha
/// (its last two digits) after the override's digits, a six-digit one is
/// replaced whole, and the rest of the line is kept on both sides.
pub proof fn lemma_override_keeps_alpha(
    line: Seq<char>,
    ovs: Seq<(String, TemplateColorOverride)>,
    d: DeclView,
    o: TemplateColorOverride,
    s: int,
    n: int,
)
    requires
        text::free_of(line, '\n'),
        declaration_of(line) == Some(d),
        override_for(ovs, d.key) == Some(o),
        hex_find(line) == Some((s, n)),
    ensures
        n == 9 ==> apply_overrides_of(line, Some(ovs)) == line.take(s) + override_hex(o) + seq![
            line[s + 7],
            line[s + 8],
        ] + line.skip(s + 9) + seq!['\n'],
        n != 9 ==> apply_overrides_of(line, Some(ovs)) == line.take(s) + override_hex(o) + line.skip(s + n)
            + seq!['\n'],
{
    lemma_hex_find_from_is_match(line, 0);
    assert(line.len() > 0);
    text::lemma_lines_single(line);
    let ls = seq![line];
    assert(ls.drop_last() =~= Seq::<Seq<char>>::empty());
    assert(ls.last() == line);
    assert(patched_lines(ls, ovs) =~= patched_lines(ls.drop_last(), ovs) + patched_line(line, ovs) + seq!['\n']);
    if n == 9 {
        assert(line.subrange(s + 7, s + 9) =~= seq![line[s + 7], line[s + 8]]);
    }
}

/// A rendered line that declares no overridden key, or has no color, comes
/// out as it was.
pub proof fn lemma_override_keeps_other_lines(line: Seq<char>, ovs: Seq<(String, TemplateColorOverride)>)
    requires
        line.len() > 0,
        text::free_of(line, '\n'),
        match declaration_of(line) {
            Some(d) => override_for(ovs, d.key) is None || hex_find(line) is None,
            None => true,
        },
    ensures
        apply_overrides_of(line, Some(ovs)) == line.push('\n'),
{
    text::lemma_lines_single(line);
    let ls = seq![line];
    assert(ls.drop_last() =~= Seq::<Seq<char>>::empty());
    assert(patched_lines(ls, ovs) =~= patched_lines(ls.drop_last(), ovs) + patched_line(line, ovs) + seq!['\n']);
}

proof fn lemma_patched_lines_concat(
    xs: Seq<Seq<char>>,
    ys: Seq<Seq<char>>,
    ovs: Seq<(String, TemplateColorOverride)>,
)
    ensures
        patched_lines(xs + ys, ovs) == patched_lines(xs, ovs) + patched_lines(ys, ovs),
    decreases ys.len(),
{
    if ys.len() == 0 {
        assert(xs + ys =~= xs);
        assert(patched_lines(xs, ovs) + patched_lines(ys, ovs) =~= patched_lines(xs, ovs));
    } else {
        lemma_patched_lines_concat(xs, ys.drop_last(), ovs);
        assert((xs + ys).drop_last() =~= xs + ys.drop_last());
        assert((xs + ys).last() == ys.last());
        assert(patched_lines(xs + ys, ovs) =~= patched_lines(xs, ovs) + patched_lines(ys, ovs));
    }
}

/// Overrides act line by line: a text made of two parts, the first ending
/// with a line break, comes out as the two parts would each on their own.
pub proof fn lemma_overrides_line_by_line(a: Seq<char>, b: Seq<char>, ovs: Seq<(String, TemplateColorOverride)>)
    requires
        a.len() > 0,
        a.last() == '\n',
    ensures
        apply_overrides_of(a + b, Some(ovs)) == apply_overrides_of(a, Some(ovs)) + apply_overrides_of(b, Some(ovs)),
{
    text::lemma_lines_append(a, b);
    lemma_patched_lines_concat(text::lines(a), text::lines(b), ovs);
}

} // verus!
