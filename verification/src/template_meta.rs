//! Metadata of the bundled templates: display names, categories, default
//! output paths, hooks and the manual steps (as i18n keys) of each file.
use vstd::prelude::*;
use crate::context;
use crate::text;
use crate::text::{is_ws, trim_start, views};

verus! {

/// What the catalog shows of a template file.
#[derive(Debug)]
pub struct TemplateMetadata {
    pub display_name: String,
    pub category: String,
    pub target_app: String,
    pub automation_level: String,
    pub installable: bool,
    pub default_output_path: Option<String>,
    pub default_post_hook: Option<String>,
    pub required_commands: Vec<String>,
    pub manual_steps: Vec<String>,
    pub related_files: Vec<String>,
}

#[verifier::ext_equal]
pub struct MetadataView {
    pub display_name: Seq<char>,
    pub category: Seq<char>,
    pub target_app: Seq<char>,
    pub automation_level: Seq<char>,
    pub installable: bool,
    pub default_output_path: Option<Seq<char>>,
    pub default_post_hook: Option<Seq<char>>,
    pub required_commands: Seq<Seq<char>>,
    pub manual_steps: Seq<Seq<char>>,
    pub related_files: Seq<Seq<char>>,
}

pub open spec fn strings_view(v: Seq<String>) -> Seq<Seq<char>> {
    v.map_values(|s: String| s@)
}

pub open spec fn opt_str_view(o: Option<&str>) -> Option<Seq<char>> {
    match o {
        Some(s) => Some(s@),
        None => None,
    }
}

impl View for TemplateMetadata {
    type V = MetadataView;

    open spec fn view(&self) -> MetadataView {
        MetadataView {
            display_name: self.display_name@,
            category: self.category@,
            target_app: self.target_app@,
            automation_level: self.automation_level@,
            installable: self.installable,
            default_output_path: context::opt_view(self.default_output_path),
            default_post_hook: context::opt_view(self.default_post_hook),
            required_commands: strings_view(self.required_commands@),
            manual_steps: strings_view(self.manual_steps@),
            related_files: strings_view(self.related_files@),
        }
    }
}

pub fn strings_of1(a: &str) -> (r: Vec<String>)
    ensures
        strings_view(r@) == seq![a@],
{
    let mut v: Vec<String> = Vec::new();
    v.push(String::from_str(a));
    assert(strings_view(v@) =~= seq![a@]);
    v
}

pub fn strings_of2(a: &str, b: &str) -> (r: Vec<String>)
    ensures
        strings_view(r@) == seq![a@, b@],
{
    let mut v: Vec<String> = Vec::new();
    v.push(String::from_str(a));
    v.push(String::from_str(b));
    assert(strings_view(v@) =~= seq![a@, b@]);
    v
}

pub fn strings_of3(a: &str, b: &str, c: &str) -> (r: Vec<String>)
    ensures
        strings_view(r@) == seq![a@, b@, c@],
{
    let mut v: Vec<String> = Vec::new();
    v.push(String::from_str(a));
    v.push(String::from_str(b));
    v.push(String::from_str(c));
    assert(strings_view(v@) =~= seq![a@, b@, c@]);
    v
}

fn opt_string(o: Option<&'static str>) -> (r: Option<String>)
    ensures
        context::opt_view(r) == opt_str_view(o),
{
    match o {
        Some(s) => Some(String::from_str(s)),
        None => None,
    }
}

// ── Friendly names ───────────────────────────────────────────────────────────

/// `str::trim_end_matches` for a non-empty suffix: every trailing repetition removed.
pub open spec fn trim_suffix_all(s: Seq<char>, suffix: Seq<char>) -> Seq<char>
    decreases s.len(),
{
    if suffix.len() > 0 && text::ends_with(s, suffix) {
        trim_suffix_all(s.take(s.len() - suffix.len()), suffix)
    } else {
        s
    }
}

/// The template file name without its recognised extensions, in the order
/// the catalog strips them.
pub open spec fn strip_extensions(f: Seq<char>) -> Seq<char> {
    let a = trim_suffix_all(f, ".tera"@);
    let b = trim_suffix_all(a, ".toml"@);
    let c = trim_suffix_all(b, ".conf"@);
    let d = trim_suffix_all(c, ".json"@);
    let e = trim_suffix_all(d, ".rasi"@);
    let g = trim_suffix_all(e, ".css"@);
    let h = trim_suffix_all(g, ".ini"@);
    let i = trim_suffix_all(h, ".theme"@);
    trim_suffix_all(i, ".colors"@)
}

pub open spec fn dash_to_space(s: Seq<char>) -> Seq<char> {
    s.map_values(|c: char| if c == '-' || c == '_' { ' ' } else { c })
}

/// The length of the leading run of non-whitespace characters.
pub open spec fn word_len(s: Seq<char>) -> nat
    decreases s.len(),
{
    if s.len() == 0 || is_ws(s[0]) {
        0
    } else {
        1 + word_len(s.drop_first())
    }
}

pub proof fn lemma_trim_start_len(s: Seq<char>)
    ensures
        trim_start(s).len() <= s.len(),
        trim_start(s).len() > 0 ==> !is_ws(trim_start(s)[0]),
        trim_start(s) == s.skip(s.len() - trim_start(s).len()),
    decreases s.len(),
{
    if s.len() > 0 && is_ws(s[0]) {
        lemma_trim_start_len(s.drop_first());
        assert(s.drop_first().skip(s.drop_first().len() - trim_start(s.drop_first()).len())
            =~= s.skip(s.len() - trim_start(s).len()));
    } else {
        assert(s.skip(0) =~= s);
    }
}

pub proof fn lemma_word_len(s: Seq<char>)
    ensures
        word_len(s) <= s.len(),
        s.len() > 0 && !is_ws(s[0]) ==> word_len(s) >= 1,
    decreases s.len(),
{
    if s.len() > 0 && !is_ws(s[0]) {
        lemma_word_len(s.drop_first());
    }
}

/// `str::split_whitespace`.
pub open spec fn words(s: Seq<char>) -> Seq<Seq<char>>
    decreases s.len(),
{
    let t = trim_start(s);
    if t.len() == 0 {
        Seq::empty()
    } else {
        proof {
            lemma_trim_start_len(s);
            lemma_word_len(t);
        }
        seq![t.take(word_len(t) as int)] + words(t.skip(word_len(t) as int))
    }
}

/// The uppercase mapping of a character, as `char::to_uppercase` yields it.
pub uninterp spec fn uppercase_of(c: char) -> Seq<char>;

/// Collects `char::to_uppercase`; the result is the named `uppercase_of` of the
/// character, and for an ASCII character its ASCII uppercase (the Unicode
/// mapping agrees with ASCII there).
#[verifier::external_body]
fn char_to_uppercase(c: char) -> (r: String)
    ensures
        r@ == uppercase_of(c),
        (c as u32) < 128 ==> r@ == seq![text::upper_char(c)],
{
    c.to_uppercase().collect::<String>()
}

pub open spec fn capitalize(w: Seq<char>) -> Seq<char> {
    if w.len() == 0 {
        w
    } else {
        uppercase_of(w[0]) + w.drop_first()
    }
}

pub open spec fn capitalize_all(ws: Seq<Seq<char>>) -> Seq<Seq<char>> {
    ws.map_values(|w: Seq<char>| capitalize(w))
}

/// A readable name for a template file: extensions stripped, `-` and `_` read
/// as spaces, each word capitalised, single spaces between words.
pub open spec fn friendly_name_of(f: Seq<char>) -> Seq<char> {
    text::join(capitalize_all(words(dash_to_space(strip_extensions(f)))), seq![' '])
}

/// A word with its first character in ASCII uppercase.
pub open spec fn capitalize_ascii(w: Seq<char>) -> Seq<char> {
    if w.len() == 0 {
        w
    } else {
        seq![text::upper_char(w[0])] + w.drop_first()
    }
}

pub open spec fn capitalize_ascii_all(ws: Seq<Seq<char>>) -> Seq<Seq<char>> {
    ws.map_values(|w: Seq<char>| capitalize_ascii(w))
}

/// Every word starts with an ASCII character.
pub open spec fn ascii_heads(ws: Seq<Seq<char>>) -> bool {
    forall|k: int| 0 <= k < ws.len() && ws[k].len() > 0 ==> (#[trigger] ws[k][0] as u32) < 128
}

/// Where every word of the name starts with an ASCII character, the
/// readable name capitalises each with ASCII uppercase.
pub open spec fn friendly_name_ascii(f: Seq<char>) -> Seq<char> {
    text::join(capitalize_ascii_all(words(dash_to_space(strip_extensions(f)))), seq![' '])
}

fn trim_suffix_all_exec(s: Vec<char>, suffix: &str) -> (r: Vec<char>)
    requires
        suffix@.len() > 0,
    ensures
        r@ == trim_suffix_all(s@, suffix@),
{
    let suf = text::chars_of(suffix);
    let mut cur = s;
    while text::ends_with_exec(&cur, &suf)
        invariant
            suf@ == suffix@,
            suf@.len() > 0,
            trim_suffix_all(cur@, suf@) == trim_suffix_all(s@, suf@),
        decreases cur.len(),
    {
        let n = cur.len() - suf.len();
        let next = text::slice_of(&cur, 0, n);
        assert(next@ =~= cur@.take(n as int));
        cur = next;
    }
    cur
}

fn strip_extensions_exec(f: &str) -> (r: Vec<char>)
    ensures
        r@ == strip_extensions(f@),
{
    proof {
        reveal_strlit(".tera");
        reveal_strlit(".toml");
        reveal_strlit(".conf");
        reveal_strlit(".json");
        reveal_strlit(".rasi");
        reveal_strlit(".css");
        reveal_strlit(".ini");
        reveal_strlit(".theme");
        reveal_strlit(".colors");
    }
    let mut v = text::chars_of(f);
    v = trim_suffix_all_exec(v, ".tera");
    v = trim_suffix_all_exec(v, ".toml");
    v = trim_suffix_all_exec(v, ".conf");
    v = trim_suffix_all_exec(v, ".json");
    v = trim_suffix_all_exec(v, ".rasi");
    v = trim_suffix_all_exec(v, ".css");
    v = trim_suffix_all_exec(v, ".ini");
    v = trim_suffix_all_exec(v, ".theme");
    v = trim_suffix_all_exec(v, ".colors");
    v
}

fn dash_to_space_exec(s: &[char]) -> (r: Vec<char>)
    ensures
        r@ == dash_to_space(s@),
{
    let mut r: Vec<char> = Vec::new();
    let mut i: usize = 0;
    while i < s.len()
        invariant
            i <= s.len(),
            r@ == dash_to_space(s@.take(i as int)),
        decreases s.len() - i,
    {
        let c = s[i];
        r.push(
            if c == '-' || c == '_' {
                ' '
            } else {
                c
            },
        );
        i = i + 1;
        assert(r@ =~= dash_to_space(s@.take(i as int)));
    }
    assert(s@.take(s.len() as int) =~= s@);
    r
}

proof fn lemma_word_len_exact(s: Seq<char>, m: int)
    requires
        0 <= m <= s.len(),
        forall|j: int| 0 <= j < m ==> !is_ws(#[trigger] s[j]),
        m == s.len() || is_ws(s[m]),
    ensures
        word_len(s) == m,
    decreases m,
{
    if m > 0 {
        assert forall|j: int| 0 <= j < m - 1 implies !is_ws(#[trigger] s.drop_first()[j]) by {
            assert(!is_ws(s[j + 1]));
        }
        lemma_word_len_exact(s.drop_first(), m - 1);
    }
}

/// `str::split_whitespace`, collected.
pub fn words_exec(s: &[char]) -> (r: Vec<Vec<char>>)
    ensures
        views(r@) == words(s@),
{
    let mut out: Vec<Vec<char>> = Vec::new();
    let mut i: usize = 0;
    assert(s@.skip(0) =~= s@);
    while i < s.len()
        invariant
            i <= s.len(),
            views(out@) + words(s@.skip(i as int)) == words(s@),
        decreases s.len() - i,
    {
        let mut j = i;
        while j < s.len() && text::is_ws_exec(s[j])
            invariant
                i <= j <= s.len(),
                forall|k: int| i <= k < j ==> is_ws(#[trigger] s@[k]),
            decreases s.len() - j,
        {
            j = j + 1;
        }
        let ghost rest = s@.skip(i as int);
        proof {
            assert forall|k: int| 0 <= k < j - i implies is_ws(#[trigger] rest[k]) by {
                assert(rest[k] == s@[i + k]);
            }
            text::lemma_trim_start_skip(rest, j - i);
            assert(rest.skip(j - i) =~= s@.skip(j as int));
            if j < s.len() {
                assert(!is_ws(s@.skip(j as int)[0]));
            }
            assert(trim_start(s@.skip(j as int)) == s@.skip(j as int));
        }
        if j == s.len() {
            assert(s@.skip(j as int) =~= Seq::<char>::empty());
            i = j;
            assert(views(out@) + words(s@.skip(i as int)) =~= words(s@));
        } else {
            let mut k = j;
            while k < s.len() && !text::is_ws_exec(s[k])
                invariant
                    j <= k <= s.len(),
                    forall|x: int| j <= x < k ==> !is_ws(#[trigger] s@[x]),
                decreases s.len() - k,
            {
                k = k + 1;
            }
            let ghost t = s@.skip(j as int);
            proof {
                assert forall|x: int| 0 <= x < k - j implies !is_ws(#[trigger] t[x]) by {
                    assert(t[x] == s@[j + x]);
                }
                if k < s.len() {
                    assert(t[k - j] == s@[k as int]);
                }
                lemma_word_len_exact(t, k - j);
                assert(t.take(k - j) =~= s@.subrange(j as int, k as int));
                assert(t.skip(k - j) =~= s@.skip(k as int));
            }
            let w = text::slice_of(s, j, k);
            let ghost before = views(out@);
            out.push(w);
            assert(views(out@) =~= before.push(w@));
            i = k;
            assert(views(out@) + words(s@.skip(i as int)) =~= words(s@));
        }
    }
    assert(s@.skip(i as int) =~= Seq::<char>::empty());
    assert(views(out@) =~= words(s@));
    out
}

/// The readable name of a template file.
pub fn friendly_name(file_name: &str) -> (r: String)
    ensures
        r@ == friendly_name_of(file_name@),
        ascii_heads(words(dash_to_space(strip_extensions(file_name@)))) ==> r@ == friendly_name_ascii(file_name@),
{
    let stripped = strip_extensions_exec(file_name);
    let spaced = dash_to_space_exec(&stripped);
    let ws = words_exec(&spaced);
    let ghost wv = words(dash_to_space(strip_extensions(file_name@)));
    let mut out: Vec<char> = Vec::new();
    let mut i: usize = 0;
    while i < ws.len()
        invariant
            views(ws@) == wv,
            i <= ws.len(),
            out@ == text::join(capitalize_all(wv.take(i as int)), seq![' ']),
            ascii_heads(wv) ==> out@ == text::join(capitalize_ascii_all(wv.take(i as int)), seq![' ']),
        decreases ws.len() - i,
    {
        if i > 0 {
            out.push(' ');
        }
        let w = &ws[i];
        assert(w@ == wv[i as int]);
        let ghost before = out@;
        if w.len() > 0 {
            let up = char_to_uppercase(w[0]);
            text::push_str(&mut out, up.as_str());
            let tail = text::slice_of(w, 1, w.len());
            text::push_all(&mut out, &tail);
            assert(tail@ =~= w@.drop_first());
        }
        i = i + 1;
        assert(capitalize_all(wv.take(i as int)).drop_last() =~= capitalize_all(wv.take(i - 1)));
        assert(capitalize_all(wv.take(i as int)).last() == capitalize(w@));
        assert(out@ =~= text::join(capitalize_all(wv.take(i as int)), seq![' ']));
        assert(capitalize_ascii_all(wv.take(i as int)).drop_last() =~= capitalize_ascii_all(wv.take(i - 1)));
        assert(capitalize_ascii_all(wv.take(i as int)).last() == capitalize_ascii(w@));
        proof {
            if ascii_heads(wv) {
                if w@.len() > 0 {
                    assert((wv[i - 1][0] as u32) < 128);
                    assert(seq![text::upper_char(w@[0])] + w@.drop_first() == capitalize_ascii(w@));
                }
                assert(out@ =~= text::join(capitalize_ascii_all(wv.take(i as int)), seq![' ']));
            }
        }
    }
    assert(wv.take(ws.len() as int) =~= wv);
    text::string_of(&out)
}

pub open spec fn target_from_filename_of(f: Seq<char>) -> Seq<char> {
    text::replace_all(
        text::replace_all(friendly_name_of(f), " Colors"@, Seq::empty()),
        " Theme"@,
        Seq::empty(),
    )
}

/// The application a template file is for, by its readable name.
pub fn target_from_filename(file_name: &str) -> (r: String)
    ensures
        r@ == target_from_filename_of(file_name@),
{
    let name = friendly_name(file_name);
    let nv = text::chars_of(name.as_str());
    let colors = text::chars_of(" Colors");
    let theme = text::chars_of(" Theme");
    let empty: Vec<char> = Vec::new();
    assert(empty@ =~= Seq::<char>::empty());
    let a = text::replace_exec(&nv, &colors, &empty);
    let b = text::replace_exec(&a, &theme, &empty);
    text::string_of(&b)
}

pub open spec fn default_output_of(fname: Seq<char>) -> Option<Seq<char>> {
    if fname == "Matugen.colors"@ {
        Some("~/.local/share/color-schemes/Matugen.colors"@)
    } else if fname == "aerc"@ {
        Some("~/.config/aerc/stylesets/matugen"@)
    } else if fname == "alacritty.toml"@ {
        Some("~/.config/alacritty/colors.toml"@)
    } else if fname == "btop.theme"@ {
        Some("~/.config/btop/themes/matugen.theme"@)
    } else if fname == "cava-colors.ini"@ {
        Some("~/.config/cava/themes/matugen"@)
    } else if fname == "firefox-colors.css"@ {
        Some("~/.cache/matugen/firefox/colors.css"@)
    } else if fname == "foot-colors.ini"@ {
        Some("~/.config/foot/foot-colors.ini"@)
    } else if fname == "ghostty"@ {
        Some("~/.config/ghostty/themes/Matugen"@)
    } else if fname == "ghostwriter.json"@ {
        Some("~/.local/share/ghostwriter/themes/Matugen.json"@)
    } else if fname == "gtk-colors.css"@ {
        Some("~/.config/gtk-4.0/colors.css"@)
    } else if fname == "helix.toml"@ {
        Some("~/.config/helix/themes/matugen.toml"@)
    } else if fname == "heroic.css"@ {
        Some("~/.config/heroic/themes/matugen.css"@)
    } else if fname == "kitty-colors.conf"@ {
        Some("~/.config/kitty/themes/Matugen.conf"@)
    } else if fname == "kvantum-colors.kvconfig"@ {
        Some("~/.config/Kvantum/matugen/matugen.kvconfig"@)
    } else if fname == "kvantum-colors.svg"@ {
        Some("~/.config/Kvantum/matugen/matugen.svg"@)
    } else if fname == "matugen.obt"@ {
        Some("~/.config/obs-studio/themes/matugen.obt"@)
    } else if fname == "mcfly.toml"@ {
        Some("~/.local/share/mcfly/config.toml"@)
    } else if fname == "micro.micro"@ {
        Some("~/.config/micro/colorschemes/matugen.micro"@)
    } else if fname == "midnight-discord.css"@ {
        Some("~/.config/vesktop/themes/midnight-discord.css"@)
    } else if fname == "nvim-colors.vim"@ {
        Some("~/.config/nvim/colors/matugen.vim"@)
    } else if fname == "obsidian.css"@ {
        Some("~/Documents/ObsidianVault/.obsidian/snippets/matugen.css"@)
    } else if fname == "opencode-colors.json"@ {
        Some("~/.config/opencode/themes/matugen.json"@)
    } else if fname == "papirus-color"@ {
        Some("~/.cache/matugen/papirus-color"@)
    } else if fname == "prismlauncher.json"@ {
        Some("~/.local/share/PrismLauncher/themes/Matugen/theme.json"@)
    } else if fname == "pywalfox-colors.json"@ {
        Some("~/.cache/wal/colors.json"@)
    } else if fname == "qtct-colors.conf"@ {
        Some("~/.config/qt6ct/colors/matugen.conf"@)
    } else if fname == "rmpc.ron"@ {
        Some("~/.config/rmpc/themes/matugen.ron"@)
    } else if fname == "spicetify.ini"@ {
        Some("~/.config/spicetify/Themes/Sleek/color.ini"@)
    } else if fname == "starship-colors.toml"@ {
        Some("~/.config/starship.toml"@)
    } else if fname == "steam.css"@ {
        Some("~/.config/AdwSteamGtk/custom.css"@)
    } else if fname == "system24.css"@ {
        Some("~/.config/vesktop/themes/system24.css"@)
    } else if fname == "telegram.tdesktop-theme"@ {
        Some("~/Downloads/matugen.tdesktop-theme"@)
    } else if fname == "television.toml"@ {
        Some("~/.config/television/themes/matugen.toml"@)
    } else if fname == "terminal-sequences"@ {
        Some("~/.cache/terminal-sequences"@)
    } else if fname == "tmux-colors.conf"@ {
        Some("~/.config/tmux/generated.conf"@)
    } else if fname == "vivaldi.css"@ {
        Some("~/.config/vivaldi-matugen/vivaldi.css"@)
    } else if fname == "vscode-colors"@ {
        Some("~/.cache/matugen/vscode-colors"@)
    } else if fname == "vscode-colors.json"@ {
        Some("~/.cache/matugen/vscode-colors.json"@)
    } else if fname == "wezterm_theme.toml"@ {
        Some("~/.config/wezterm/colors/matugen_theme.toml"@)
    } else if fname == "wine.reg"@ {
        Some("/tmp/wine.reg"@)
    } else if fname == "yazi-theme.toml"@ {
        Some("~/.config/yazi/theme.toml"@)
    } else if fname == "zathura-colors"@ {
        Some("~/.config/zathura/zathurarc"@)
    } else if fname == "zed-colors.json"@ {
        Some("~/.config/zed/themes/matugen.json"@)
    } else if fname == "zellij-theme.kdl.tera"@ {
        Some("~/.config/zellij/themes/matugen.kdl"@)
    } else {
        None
    }
}

pub fn default_output_path(file_name: &str) -> (r: Option<&'static str>)
    ensures
        opt_str_view(r) == default_output_of(file_name@),
{
    if context::str_eq(file_name, "Matugen.colors") {
        Some("~/.local/share/color-schemes/Matugen.colors")
    } else if context::str_eq(file_name, "aerc") {
        Some("~/.config/aerc/stylesets/matugen")
    } else if context::str_eq(file_name, "alacritty.toml") {
        Some("~/.config/alacritty/colors.toml")
    } else if context::str_eq(file_name, "btop.theme") {
        Some("~/.config/btop/themes/matugen.theme")
    } else if context::str_eq(file_name, "cava-colors.ini") {
        Some("~/.config/cava/themes/matugen")
    } else if context::str_eq(file_name, "firefox-colors.css") {
        Some("~/.cache/matugen/firefox/colors.css")
    } else if context::str_eq(file_name, "foot-colors.ini") {
        Some("~/.config/foot/foot-colors.ini")
    } else if context::str_eq(file_name, "ghostty") {
        Some("~/.config/ghostty/themes/Matugen")
    } else if context::str_eq(file_name, "ghostwriter.json") {
        Some("~/.local/share/ghostwriter/themes/Matugen.json")
    } else if context::str_eq(file_name, "gtk-colors.css") {
        Some("~/.config/gtk-4.0/colors.css")
    } else if context::str_eq(file_name, "helix.toml") {
        Some("~/.config/helix/themes/matugen.toml")
    } else if context::str_eq(file_name, "heroic.css") {
        Some("~/.config/heroic/themes/matugen.css")
    } else if context::str_eq(file_name, "kitty-colors.conf") {
        Some("~/.config/kitty/themes/Matugen.conf")
    } else if context::str_eq(file_name, "kvantum-colors.kvconfig") {
        Some("~/.config/Kvantum/matugen/matugen.kvconfig")
    } else if context::str_eq(file_name, "kvantum-colors.svg") {
        Some("~/.config/Kvantum/matugen/matugen.svg")
    } else if context::str_eq(file_name, "matugen.obt") {
        Some("~/.config/obs-studio/themes/matugen.obt")
    } else if context::str_eq(file_name, "mcfly.toml") {
        Some("~/.local/share/mcfly/config.toml")
    } else if context::str_eq(file_name, "micro.micro") {
        Some("~/.config/micro/colorschemes/matugen.micro")
    } else if context::str_eq(file_name, "midnight-discord.css") {
        Some("~/.config/vesktop/themes/midnight-discord.css")
    } else if context::str_eq(file_name, "nvim-colors.vim") {
        Some("~/.config/nvim/colors/matugen.vim")
    } else if context::str_eq(file_name, "obsidian.css") {
        Some("~/Documents/ObsidianVault/.obsidian/snippets/matugen.css")
    } else if context::str_eq(file_name, "opencode-colors.json") {
        Some("~/.config/opencode/themes/matugen.json")
    } else if context::str_eq(file_name, "papirus-color") {
        Some("~/.cache/matugen/papirus-color")
    } else if context::str_eq(file_name, "prismlauncher.json") {
        Some("~/.local/share/PrismLauncher/themes/Matugen/theme.json")
    } else if context::str_eq(file_name, "pywalfox-colors.json") {
        Some("~/.cache/wal/colors.json")
    } else if context::str_eq(file_name, "qtct-colors.conf") {
        Some("~/.config/qt6ct/colors/matugen.conf")
    } else if context::str_eq(file_name, "rmpc.ron") {
        Some("~/.config/rmpc/themes/matugen.ron")
    } else if context::str_eq(file_name, "spicetify.ini") {
        Some("~/.config/spicetify/Themes/Sleek/color.ini")
    } else if context::str_eq(file_name, "starship-colors.toml") {
        Some("~/.config/starship.toml")
    } else if context::str_eq(file_name, "steam.css") {
        Some("~/.config/AdwSteamGtk/custom.css")
    } else if context::str_eq(file_name, "system24.css") {
        Some("~/.config/vesktop/themes/system24.css")
    } else if context::str_eq(file_name, "telegram.tdesktop-theme") {
        Some("~/Downloads/matugen.tdesktop-theme")
    } else if context::str_eq(file_name, "television.toml") {
        Some("~/.config/television/themes/matugen.toml")
    } else if context::str_eq(file_name, "terminal-sequences") {
        Some("~/.cache/terminal-sequences")
    } else if context::str_eq(file_name, "tmux-colors.conf") {
        Some("~/.config/tmux/generated.conf")
    } else if context::str_eq(file_name, "vivaldi.css") {
        Some("~/.config/vivaldi-matugen/vivaldi.css")
    } else if context::str_eq(file_name, "vscode-colors") {
        Some("~/.cache/matugen/vscode-colors")
    } else if context::str_eq(file_name, "vscode-colors.json") {
        Some("~/.cache/matugen/vscode-colors.json")
    } else if context::str_eq(file_name, "wezterm_theme.toml") {
        Some("~/.config/wezterm/colors/matugen_theme.toml")
    } else if context::str_eq(file_name, "wine.reg") {
        Some("/tmp/wine.reg")
    } else if context::str_eq(file_name, "yazi-theme.toml") {
        Some("~/.config/yazi/theme.toml")
    } else if context::str_eq(file_name, "zathura-colors") {
        Some("~/.config/zathura/zathurarc")
    } else if context::str_eq(file_name, "zed-colors.json") {
        Some("~/.config/zed/themes/matugen.json")
    } else if context::str_eq(file_name, "zellij-theme.kdl.tera") {
        Some("~/.config/zellij/themes/matugen.kdl")
    } else {
        None
    }
}

pub open spec fn default_post_hook_of(fname: Seq<char>) -> Option<Seq<char>> {
    if fname == "Matugen.colors"@ {
        Some("plasma-apply-colorscheme Matugen"@)
    } else if fname == "btop.theme"@ {
        Some("pkill -USR2 btop || true"@)
    } else if fname == "foot-colors.ini"@ {
        Some("pkill -SIGUSR1 foot || true"@)
    } else if fname == "ghostty"@ {
        Some("pkill -SIGUSR2 ghostty"@)
    } else if fname == "kitty-colors.conf"@ {
        Some("kitty +kitten themes --reload-in=all Matugen"@)
    } else if fname == "nvim-colors.vim"@ || fname == "template.lua"@ {
        Some("pkill -SIGUSR1 nvim"@)
    } else if fname == "pywalfox-colors.json"@ {
        Some("pywalfox update"@)
    } else if fname == "spicetify.ini"@ {
        Some("spicetify watch -s 2>&1 | sed \"/Reloaded Spotify/q\""@)
    } else if fname == "steam.css"@ {
        Some("adwaita-steam-gtk -i"@)
    } else if fname == "terminal-sequences"@ {
        Some("cat ~/.cache/terminal-sequences > /dev/pts/[0-9]*"@)
    } else if fname == "tmux-colors.conf"@ {
        Some("tmux source-file ~/.config/tmux/generated.conf"@)
    } else if fname == "wezterm_theme.toml"@ {
        Some("touch ~/.config/wezterm/wezterm.lua"@)
    } else if fname == "wine.reg"@ {
        Some("wine regedit /tmp/wine.reg"@)
    } else if fname == "zellij-theme.kdl.tera"@ {
        Some("touch ~/.config/zellij/config.kdl"@)
    } else {
        None
    }
}

pub fn default_post_hook(file_name: &str) -> (r: Option<&'static str>)
    ensures
        opt_str_view(r) == default_post_hook_of(file_name@),
{
    if context::str_eq(file_name, "Matugen.colors") {
        Some("plasma-apply-colorscheme Matugen")
    } else if context::str_eq(file_name, "btop.theme") {
        Some("pkill -USR2 btop || true")
    } else if context::str_eq(file_name, "foot-colors.ini") {
        Some("pkill -SIGUSR1 foot || true")
    } else if context::str_eq(file_name, "ghostty") {
        Some("pkill -SIGUSR2 ghostty")
    } else if context::str_eq(file_name, "kitty-colors.conf") {
        Some("kitty +kitten themes --reload-in=all Matugen")
    } else if context::str_eq(file_name, "nvim-colors.vim") || context::str_eq(file_name, "template.lua") {
        Some("pkill -SIGUSR1 nvim")
    } else if context::str_eq(file_name, "pywalfox-colors.json") {
        Some("pywalfox update")
    } else if context::str_eq(file_name, "spicetify.ini") {
        Some("spicetify watch -s 2>&1 | sed \"/Reloaded Spotify/q\"")
    } else if context::str_eq(file_name, "steam.css") {
        Some("adwaita-steam-gtk -i")
    } else if context::str_eq(file_name, "terminal-sequences") {
        Some("cat ~/.cache/terminal-sequences > /dev/pts/[0-9]*")
    } else if context::str_eq(file_name, "tmux-colors.conf") {
        Some("tmux source-file ~/.config/tmux/generated.conf")
    } else if context::str_eq(file_name, "wezterm_theme.toml") {
        Some("touch ~/.config/wezterm/wezterm.lua")
    } else if context::str_eq(file_name, "wine.reg") {
        Some("wine regedit /tmp/wine.reg")
    } else if context::str_eq(file_name, "zellij-theme.kdl.tera") {
        Some("touch ~/.config/zellij/config.kdl")
    } else {
        None
    }
}

pub open spec fn manual_steps_of(fname: Seq<char>) -> Seq<Seq<char>> {
    if fname == "aerc"@ {
        seq!["templates.steps.aercStyleset"@]
    } else if fname == "alacritty.toml"@ {
        seq!["templates.steps.alacrittyImport"@]
    } else if fname == "btop.theme"@ {
        seq!["templates.steps.btopChooseTheme"@]
    } else if fname == "cava-colors.ini"@ {
        seq!["templates.steps.cavaSetTheme"@]
    } else if fname == "foot-colors.ini"@ {
        seq!["templates.steps.footIncludeConfig"@]
    } else if fname == "ghostty"@ {
        seq!["templates.steps.ghosttySetTheme"@]
    } else if fname == "ghostwriter.json"@ {
        seq!["templates.steps.ghostwriterSetTheme"@]
    } else if fname == "helix.toml"@ {
        seq!["templates.steps.helixSetTheme"@]
    } else if fname == "heroic.css"@ {
        seq!["templates.steps.heroicCustomThemesPath"@, "templates.steps.heroicSelectTheme"@]
    } else if fname == "kitty-colors.conf"@ {
        seq!["templates.steps.kittyApplyTheme"@]
    } else if fname == "midnight-discord.css"@ || fname == "system24.css"@ {
        seq!["templates.steps.discordActivate"@]
    } else if fname == "spicetify.ini"@ {
        seq!["templates.steps.spicetifyConfig"@, "templates.steps.spicetifyDownloadSleek"@]
    } else if fname == "steam.css"@ {
        seq!["templates.steps.steamInstallAdwSteamGtk"@, "templates.steps.steamEnableCustomCss"@]
    } else if fname == "telegram.tdesktop-theme"@ {
        seq!["templates.steps.telegramManualIntro"@, "templates.steps.telegramApply"@]
    } else if fname == "vivaldi.css"@ {
        seq!["templates.steps.vivaldiEnableExperiment"@, "templates.steps.vivaldiSelectFolder"@]
    } else if fname == "zellij-theme.kdl.tera"@ {
        seq!["templates.steps.zellijAddTheme"@]
    } else {
        Seq::empty()
    }
}

pub fn manual_steps(file_name: &str) -> (r: Vec<String>)
    ensures
        strings_view(r@) == manual_steps_of(file_name@),
{
    if context::str_eq(file_name, "aerc") {
        strings_of1("templates.steps.aercStyleset")
    } else if context::str_eq(file_name, "alacritty.toml") {
        strings_of1("templates.steps.alacrittyImport")
    } else if context::str_eq(file_name, "btop.theme") {
        strings_of1("templates.steps.btopChooseTheme")
    } else if context::str_eq(file_name, "cava-colors.ini") {
        strings_of1("templates.steps.cavaSetTheme")
    } else if context::str_eq(file_name, "foot-colors.ini") {
        strings_of1("templates.steps.footIncludeConfig")
    } else if context::str_eq(file_name, "ghostty") {
        strings_of1("templates.steps.ghosttySetTheme")
    } else if context::str_eq(file_name, "ghostwriter.json") {
        strings_of1("templates.steps.ghostwriterSetTheme")
    } else if context::str_eq(file_name, "helix.toml") {
        strings_of1("templates.steps.helixSetTheme")
    } else if context::str_eq(file_name, "heroic.css") {
        strings_of2("templates.steps.heroicCustomThemesPath", "templates.steps.heroicSelectTheme")
    } else if context::str_eq(file_name, "kitty-colors.conf") {
        strings_of1("templates.steps.kittyApplyTheme")
    } else if context::str_eq(file_name, "midnight-discord.css") || context::str_eq(file_name, "system24.css") {
        strings_of1("templates.steps.discordActivate")
    } else if context::str_eq(file_name, "spicetify.ini") {
        strings_of2("templates.steps.spicetifyConfig", "templates.steps.spicetifyDownloadSleek")
    } else if context::str_eq(file_name, "steam.css") {
        strings_of2("templates.steps.steamInstallAdwSteamGtk", "templates.steps.steamEnableCustomCss")
    } else if context::str_eq(file_name, "telegram.tdesktop-theme") {
        strings_of2("templates.steps.telegramManualIntro", "templates.steps.telegramApply")
    } else if context::str_eq(file_name, "vivaldi.css") {
        strings_of2("templates.steps.vivaldiEnableExperiment", "templates.steps.vivaldiSelectFolder")
    } else if context::str_eq(file_name, "zellij-theme.kdl.tera") {
        strings_of1("templates.steps.zellijAddTheme")
    } else {
        Vec::new()
    }
}

/// File-specific metadata, part 1 of the curated table.
pub open spec fn curated_1(fname: Seq<char>, m: MetadataView) -> MetadataView {
    if fname == "Matugen.colors"@ {
        MetadataView { category: "KDE Plasma"@, display_name: "KDE Color Scheme"@, target_app: "KDE Plasma"@, required_commands: seq!["plasma-apply-colorscheme"@], ..m }
    } else if fname == "kvantum-colors.kvconfig"@ || fname == "kvantum-colors.svg"@ {
        MetadataView { category: "KDE Plasma"@, target_app: "Kvantum"@, automation_level: "config-patch"@, manual_steps: seq!["templates.steps.kvantumSetTheme"@], ..m }
    } else if fname == "qtct-colors.conf"@ {
        MetadataView { category: "KDE Plasma"@, target_app: "Qt qt5ct/qt6ct"@, automation_level: "config-patch"@, required_commands: seq!["qt5ct"@, "qt6ct"@], manual_steps: seq!["templates.steps.qtctPlatformTheme"@, "templates.steps.qtctInstallStyle"@], ..m }
    } else if fname == "gtk-colors.css"@ {
        MetadataView { category: "KDE Plasma"@, target_app: "GTK 3/4"@, automation_level: "config-patch"@, manual_steps: seq!["templates.steps.gtkImportColors"@], ..m }
    } else if fname == "kitty-colors.conf"@ || fname == "ghostty"@ || fname == "alacritty.toml"@ || fname == "wezterm_theme.toml"@ {
        MetadataView { category: "Terminals"@, automation_level: "config-patch"@, ..m }
    } else if fname == "terminal-sequences"@ {
        MetadataView { category: "Terminals"@, automation_level: "config-patch"@, ..m }
    } else {
        m
    }
}

fn apply_curated_1(file_name: &str, meta: &mut TemplateMetadata)
    ensures
        final(meta)@ == curated_1(file_name@, old(meta)@),
{
    if context::str_eq(file_name, "Matugen.colors") {
        meta.category = String::from_str("KDE Plasma");
        meta.display_name = String::from_str("KDE Color Scheme");
        meta.target_app = String::from_str("KDE Plasma");
        meta.required_commands = strings_of1("plasma-apply-colorscheme");
    } else if context::str_eq(file_name, "kvantum-colors.kvconfig") || context::str_eq(file_name, "kvantum-colors.svg") {
        meta.category = String::from_str("KDE Plasma");
        meta.target_app = String::from_str("Kvantum");
        meta.automation_level = String::from_str("config-patch");
        meta.manual_steps = strings_of1("templates.steps.kvantumSetTheme");
    } else if context::str_eq(file_name, "qtct-colors.conf") {
        meta.category = String::from_str("KDE Plasma");
        meta.target_app = String::from_str("Qt qt5ct/qt6ct");
        meta.automation_level = String::from_str("config-patch");
        meta.required_commands = strings_of2("qt5ct", "qt6ct");
        meta.manual_steps = strings_of2("templates.steps.qtctPlatformTheme", "templates.steps.qtctInstallStyle");
    } else if context::str_eq(file_name, "gtk-colors.css") {
        meta.category = String::from_str("KDE Plasma");
        meta.target_app = String::from_str("GTK 3/4");
        meta.automation_level = String::from_str("config-patch");
        meta.manual_steps = strings_of1("templates.steps.gtkImportColors");
    } else if context::str_eq(file_name, "kitty-colors.conf") || context::str_eq(file_name, "ghostty") || context::str_eq(file_name, "alacritty.toml") || context::str_eq(file_name, "wezterm_theme.toml") {
        meta.category = String::from_str("Terminals");
        meta.automation_level = String::from_str("config-patch");
    } else if context::str_eq(file_name, "terminal-sequences") {
        meta.category = String::from_str("Terminals");
        meta.automation_level = String::from_str("config-patch");
    }
}

/// File-specific metadata, part 2 of the curated table.
pub open spec fn curated_2(fname: Seq<char>, m: MetadataView) -> MetadataView {
    if fname == "tmux-colors.conf"@ {
        MetadataView { category: "Shell Tools"@, automation_level: "config-patch"@, ..m }
    } else if fname == "zellij-theme.kdl.tera"@ {
        MetadataView { category: "Shell Tools"@, display_name: "Zellij"@, target_app: "Zellij"@, automation_level: "config-patch"@, ..m }
    } else if fname == "mcfly.toml"@ {
        MetadataView { category: "Shell Tools"@, display_name: "McFly"@, target_app: "McFly"@, ..m }
    } else if fname == "starship-colors.toml"@ || fname == "yazi-theme.toml"@ || fname == "television.toml"@ || fname == "btop.theme"@ || fname == "cava-colors.ini"@ || fname == "opencode-colors.json"@ || fname == "aerc"@ {
        MetadataView { category: "Shell Tools"@, ..m }
    } else if fname == "firefox-colors.css"@ || fname == "pywalfox-colors.json"@ || fname == "vivaldi.css"@ {
        MetadataView { category: "Browsers"@, automation_level: "manual"@, ..m }
    } else if fname == "zen-userchrome.css"@ || fname == "zen-usercontent.css"@ {
        MetadataView { category: "Browsers"@, display_name: if fname == "zen-userchrome.css"@ { "Zen Browser (userChrome)"@ } else { "Zen Browser (userContent)"@ }, target_app: "Zen Browser"@, automation_level: "manual"@, manual_steps: seq!["templates.steps.zenEnableStylesheets"@, "templates.steps.zenImportChrome"@], related_files: seq!["templates/zen-userchrome.css"@, "templates/zen-usercontent.css"@], ..m }
    } else {
        m
    }
}

fn apply_curated_2(file_name: &str, meta: &mut TemplateMetadata)
    ensures
        final(meta)@ == curated_2(file_name@, old(meta)@),
{
    if context::str_eq(file_name, "tmux-colors.conf") {
        meta.category = String::from_str("Shell Tools");
        meta.automation_level = String::from_str("config-patch");
    } else if context::str_eq(file_name, "zellij-theme.kdl.tera") {
        meta.category = String::from_str("Shell Tools");
        meta.display_name = String::from_str("Zellij");
        meta.target_app = String::from_str("Zellij");
        meta.automation_level = String::from_str("config-patch");
    } else if context::str_eq(file_name, "mcfly.toml") {
        meta.category = String::from_str("Shell Tools");
        meta.display_name = String::from_str("McFly");
        meta.target_app = String::from_str("McFly");
    } else if context::str_eq(file_name, "starship-colors.toml") || context::str_eq(file_name, "yazi-theme.toml") || context::str_eq(file_name, "television.toml") || context::str_eq(file_name, "btop.theme") || context::str_eq(file_name, "cava-colors.ini") || context::str_eq(file_name, "opencode-colors.json") || context::str_eq(file_name, "aerc") {
        meta.category = String::from_str("Shell Tools");
    } else if context::str_eq(file_name, "firefox-colors.css") || context::str_eq(file_name, "pywalfox-colors.json") || context::str_eq(file_name, "vivaldi.css") {
        meta.category = String::from_str("Browsers");
        meta.automation_level = String::from_str("manual");
    } else if context::str_eq(file_name, "zen-userchrome.css") || context::str_eq(file_name, "zen-usercontent.css") {
        meta.category = String::from_str("Browsers");
        meta.display_name = if context::str_eq(file_name, "zen-userchrome.css") { String::from_str("Zen Browser (userChrome)") } else { String::from_str("Zen Browser (userContent)") };
        meta.target_app = String::from_str("Zen Browser");
        meta.automation_level = String::from_str("manual");
        meta.manual_steps = strings_of2("templates.steps.zenEnableStylesheets", "templates.steps.zenImportChrome");
        meta.related_files = strings_of2("templates/zen-userchrome.css", "templates/zen-usercontent.css");
    }
}

/// File-specific metadata, part 3 of the curated table.
pub open spec fn curated_3(fname: Seq<char>, m: MetadataView) -> MetadataView {
    if fname == "nvim-colors.vim"@ || fname == "template.lua"@ || fname == "helix.toml"@ || fname == "zed-colors.json"@ || fname == "obsidian.css"@ || fname == "micro.micro"@ {
        MetadataView { category: "Editors"@, automation_level: if fname == "helix.toml"@ { "config-patch"@ } else { "manual"@ }, ..m }
    } else if fname == "vscode-colors"@ || fname == "vscode-colors.json"@ {
        MetadataView { category: "Editors"@, display_name: "VS Code"@, target_app: "VS Code"@, automation_level: "manual"@, manual_steps: seq!["templates.steps.vscodeInstallExtension"@], related_files: seq!["templates/vscode-colors"@, "templates/vscode-colors.json"@], ..m }
    } else if fname == "midnight-discord.css"@ {
        MetadataView { display_name: "Discord (Midnight)"@, target_app: "Discord"@, automation_level: "manual"@, ..m }
    } else if fname == "system24.css"@ {
        MetadataView { display_name: "Discord (System24)"@, target_app: "Discord"@, automation_level: "manual"@, ..m }
    } else if fname == "spicetify.ini"@ {
        MetadataView { display_name: "Spotify (Spicetify)"@, target_app: "Spotify"@, automation_level: "manual"@, ..m }
    } else if fname == "steam.css"@ {
        MetadataView { automation_level: "manual"@, ..m }
    } else {
        m
    }
}

fn apply_curated_3(file_name: &str, meta: &mut TemplateMetadata)
    ensures
        final(meta)@ == curated_3(file_name@, old(meta)@),
{
    if context::str_eq(file_name, "nvim-colors.vim") || context::str_eq(file_name, "template.lua") || context::str_eq(file_name, "helix.toml") || context::str_eq(file_name, "zed-colors.json") || context::str_eq(file_name, "obsidian.css") || context::str_eq(file_name, "micro.micro") {
        meta.category = String::from_str("Editors");
        meta.automation_level = if context::str_eq(file_name, "helix.toml") { String::from_str("config-patch") } else { String::from_str("manual") };
    } else if context::str_eq(file_name, "vscode-colors") || context::str_eq(file_name, "vscode-colors.json") {
        meta.category = String::from_str("Editors");
        meta.display_name = String::from_str("VS Code");
        meta.target_app = String::from_str("VS Code");
        meta.automation_level = String::from_str("manual");
        meta.manual_steps = strings_of1("templates.steps.vscodeInstallExtension");
        meta.related_files = strings_of2("templates/vscode-colors", "templates/vscode-colors.json");
    } else if context::str_eq(file_name, "midnight-discord.css") {
        meta.display_name = String::from_str("Discord (Midnight)");
        meta.target_app = String::from_str("Discord");
        meta.automation_level = String::from_str("manual");
    } else if context::str_eq(file_name, "system24.css") {
        meta.display_name = String::from_str("Discord (System24)");
        meta.target_app = String::from_str("Discord");
        meta.automation_level = String::from_str("manual");
    } else if context::str_eq(file_name, "spicetify.ini") {
        meta.display_name = String::from_str("Spotify (Spicetify)");
        meta.target_app = String::from_str("Spotify");
        meta.automation_level = String::from_str("manual");
    } else if context::str_eq(file_name, "steam.css") {
        meta.automation_level = String::from_str("manual");
    }
}

/// File-specific metadata, part 4 of the curated table.
pub open spec fn curated_4(fname: Seq<char>, m: MetadataView) -> MetadataView {
    if fname == "telegram.tdesktop-theme"@ {
        MetadataView { display_name: "Telegram"@, target_app: "Telegram"@, automation_level: "manual"@, ..m }
    } else if fname == "heroic.css"@ {
        MetadataView { target_app: "Heroic Games Launcher"@, automation_level: "config-patch"@, manual_steps: seq!["templates.steps.heroicCustomThemesPath"@, "templates.steps.heroicSelectTheme"@], ..m }
    } else if fname == "foot-colors.ini"@ {
        MetadataView { category: "Terminals"@, display_name: "Foot"@, target_app: "Foot"@, automation_level: "config-patch"@, manual_steps: seq!["templates.steps.footIncludeConfig"@], ..m }
    } else if fname == "ghostwriter.json"@ {
        MetadataView { category: "Editors"@, display_name: "Ghostwriter"@, target_app: "Ghostwriter"@, automation_level: "config-patch"@, manual_steps: seq!["templates.steps.ghostwriterSetTheme"@], ..m }
    } else if fname == "prismlauncher.json"@ {
        MetadataView { display_name: "PrismLauncher"@, target_app: "PrismLauncher"@, automation_level: "manual"@, ..m }
    } else if fname == "matugen.obt"@ {
        MetadataView { display_name: "OBS Studio"@, target_app: "OBS Studio"@, automation_level: "manual"@, ..m }
    } else {
        m
    }
}

fn apply_curated_4(file_name: &str, meta: &mut TemplateMetadata)
    ensures
        final(meta)@ == curated_4(file_name@, old(meta)@),
{
    if context::str_eq(file_name, "telegram.tdesktop-theme") {
        meta.display_name = String::from_str("Telegram");
        meta.target_app = String::from_str("Telegram");
        meta.automation_level = String::from_str("manual");
    } else if context::str_eq(file_name, "heroic.css") {
        meta.target_app = String::from_str("Heroic Games Launcher");
        meta.automation_level = String::from_str("config-patch");
        meta.manual_steps = strings_of2("templates.steps.heroicCustomThemesPath", "templates.steps.heroicSelectTheme");
    } else if context::str_eq(file_name, "foot-colors.ini") {
        meta.category = String::from_str("Terminals");
        meta.display_name = String::from_str("Foot");
        meta.target_app = String::from_str("Foot");
        meta.automation_level = String::from_str("config-patch");
        meta.manual_steps = strings_of1("templates.steps.footIncludeConfig");
    } else if context::str_eq(file_name, "ghostwriter.json") {
        meta.category = String::from_str("Editors");
        meta.display_name = String::from_str("Ghostwriter");
        meta.target_app = String::from_str("Ghostwriter");
        meta.automation_level = String::from_str("config-patch");
        meta.manual_steps = strings_of1("templates.steps.ghostwriterSetTheme");
    } else if context::str_eq(file_name, "prismlauncher.json") {
        meta.display_name = String::from_str("PrismLauncher");
        meta.target_app = String::from_str("PrismLauncher");
        meta.automation_level = String::from_str("manual");
    } else if context::str_eq(file_name, "matugen.obt") {
        meta.display_name = String::from_str("OBS Studio");
        meta.target_app = String::from_str("OBS Studio");
        meta.automation_level = String::from_str("manual");
    }
}

/// File-specific metadata, part 5 of the curated table.
pub open spec fn curated_5(fname: Seq<char>, m: MetadataView) -> MetadataView {
    if fname == "rmpc.ron"@ {
        MetadataView { display_name: "Rmpc"@, target_app: "Rmpc"@, automation_level: "config-patch"@, manual_steps: seq!["templates.steps.rmpcSetTheme"@], ..m }
    } else if fname == "wine.reg"@ {
        MetadataView { display_name: "Wine"@, target_app: "Wine"@, automation_level: "config-patch"@, ..m }
    } else if fname == "zathura-colors"@ {
        MetadataView { display_name: "Zathura"@, target_app: "Zathura"@, ..m }
    } else if fname == "papirus-color"@ {
        MetadataView { display_name: "Papirus Folders"@, target_app: "Papirus Icon Theme"@, automation_level: "manual"@, required_commands: seq!["papirus-folders"@], manual_steps: seq!["templates.steps.papirusInstall"@, "templates.steps.papirusPostHook"@], ..m }
    } else {
        m
    }
}

fn apply_curated_5(file_name: &str, meta: &mut TemplateMetadata)
    ensures
        final(meta)@ == curated_5(file_name@, old(meta)@),
{
    if context::str_eq(file_name, "rmpc.ron") {
        meta.display_name = String::from_str("Rmpc");
        meta.target_app = String::from_str("Rmpc");
        meta.automation_level = String::from_str("config-patch");
        meta.manual_steps = strings_of1("templates.steps.rmpcSetTheme");
    } else if context::str_eq(file_name, "wine.reg") {
        meta.display_name = String::from_str("Wine");
        meta.target_app = String::from_str("Wine");
        meta.automation_level = String::from_str("config-patch");
    } else if context::str_eq(file_name, "zathura-colors") {
        meta.display_name = String::from_str("Zathura");
        meta.target_app = String::from_str("Zathura");
    } else if context::str_eq(file_name, "papirus-color") {
        meta.display_name = String::from_str("Papirus Folders");
        meta.target_app = String::from_str("Papirus Icon Theme");
        meta.automation_level = String::from_str("manual");
        meta.required_commands = strings_of1("papirus-folders");
        meta.manual_steps = strings_of2("templates.steps.papirusInstall", "templates.steps.papirusPostHook");
    }
}

pub open spec fn curated(fname: Seq<char>, m: MetadataView) -> MetadataView {
    curated_5(fname, curated_4(fname, curated_3(fname, curated_2(fname, curated_1(fname, m)))))
}

fn apply_curated(file_name: &str, meta: &mut TemplateMetadata)
    ensures
        final(meta)@ == curated(file_name@, old(meta)@),
{
    apply_curated_1(file_name, meta);
    apply_curated_2(file_name, meta);
    apply_curated_3(file_name, meta);
    apply_curated_4(file_name, meta);
    apply_curated_5(file_name, meta);
}

/// The metadata before the file-specific table applies.
pub open spec fn base_metadata(f: Seq<char>, installable: bool) -> MetadataView {
    MetadataView {
        display_name: friendly_name_of(f),
        category: "Apps"@,
        target_app: target_from_filename_of(f),
        automation_level: "auto"@,
        installable,
        default_output_path: default_output_of(f),
        default_post_hook: default_post_hook_of(f),
        required_commands: Seq::empty(),
        manual_steps: manual_steps_of(f),
        related_files: Seq::empty(),
    }
}

/// The metadata of a template: website stylesheets are manual Firefox CSS;
/// other files follow the curated table, and `neovim/template.lua` is the
/// Neovim Lua template.
pub open spec fn metadata_of(relative_path: Seq<char>, f: Seq<char>, installable: bool) -> MetadataView {
    let base = base_metadata(f, installable);
    if text::starts_with(relative_path, "websites/"@) {
        MetadataView {
            category: "Websites"@,
            target_app: "Firefox CSS"@,
            automation_level: "manual"@,
            installable: false,
            default_output_path: None,
            manual_steps: seq![
                "templates.steps.websiteEnableStylesheets"@,
                "templates.steps.websiteCopyCss"@,
                "templates.steps.websiteImport"@,
            ],
            ..base
        }
    } else {
        let m = curated(f, base);
        if relative_path == "neovim/template.lua"@ {
            MetadataView {
                display_name: "Neovim Lua"@,
                target_app: "Neovim"@,
                category: "Editors"@,
                related_files: seq!["templates/neovim/init.lua"@],
                manual_steps: seq![
                    "templates.steps.neovimBase16"@,
                    "templates.steps.neovimReloadHook"@,
                ],
                ..m
            }
        } else {
            m
        }
    }
}

pub fn template_metadata(relative_path: &str, file_name: &str, installable: bool) -> (r:
    TemplateMetadata)
    ensures
        r@ == metadata_of(relative_path@, file_name@, installable),
{
    let mut meta = TemplateMetadata {
        display_name: friendly_name(file_name),
        category: String::from_str("Apps"),
        target_app: target_from_filename(file_name),
        automation_level: String::from_str("auto"),
        installable,
        default_output_path: opt_string(default_output_path(file_name)),
        default_post_hook: opt_string(default_post_hook(file_name)),
        required_commands: Vec::new(),
        manual_steps: manual_steps(file_name),
        related_files: Vec::new(),
    };
    assert(strings_view(meta.required_commands@) =~= Seq::<Seq<char>>::empty());
    assert(strings_view(meta.related_files@) =~= Seq::<Seq<char>>::empty());
    assert(meta@ =~= base_metadata(file_name@, installable));
    let rel = text::chars_of(relative_path);
    if text::starts_with_str(&rel, "websites/") {
        meta.category = String::from_str("Websites");
        meta.target_app = String::from_str("Firefox CSS");
        meta.automation_level = String::from_str("manual");
        meta.installable = false;
        meta.default_output_path = None;
        meta.manual_steps = strings_of3(
            "templates.steps.websiteEnableStylesheets",
            "templates.steps.websiteCopyCss",
            "templates.steps.websiteImport",
        );
        return meta;
    }
    apply_curated(file_name, &mut meta);
    if context::str_eq(relative_path, "neovim/template.lua") {
        meta.display_name = String::from_str("Neovim Lua");
        meta.target_app = String::from_str("Neovim");
        meta.category = String::from_str("Editors");
        meta.related_files = strings_of1("templates/neovim/init.lua");
        meta.manual_steps = strings_of2(
            "templates.steps.neovimBase16",
            "templates.steps.neovimReloadHook",
        );
    }
    meta
}

/// A template file as the catalog lists it.
#[derive(Debug)]
pub struct TemplateInfo {
    pub name: String,
    pub display_name: String,
    pub path: String,
    pub relative_path: String,
    pub size: u64,
    pub category: String,
    pub target_app: String,
    pub automation_level: String,
    pub installable: bool,
    pub default_output_path: Option<String>,
    pub default_post_hook: Option<String>,
    pub required_commands: Vec<String>,
    pub manual_steps: Vec<String>,
    pub related_files: Vec<String>,
}

/// The name by which a template's metadata is looked up: the file name of its
/// path, else its relative path.
pub open spec fn info_file_name(path: Seq<char>, relative_path: Seq<char>) -> Seq<char> {
    match crate::path::file_name(path) {
        Some(f) => f,
        None => relative_path,
    }
}

/// The metadata that `template_info` puts into the listed entry.
pub open spec fn info_matches(i: TemplateInfo, path: Seq<char>, relative_path: Seq<char>, size: u64, m: MetadataView) -> bool {
    &&& i.name@ == relative_path
    &&& i.path@ == path
    &&& i.relative_path@ == relative_path
    &&& i.size == size
    &&& i.display_name@ == m.display_name
    &&& i.category@ == m.category
    &&& i.target_app@ == m.target_app
    &&& i.automation_level@ == m.automation_level
    &&& i.installable == m.installable
    &&& context::opt_view(i.default_output_path) == m.default_output_path
    &&& context::opt_view(i.default_post_hook) == m.default_post_hook
    &&& strings_view(i.required_commands@) == m.required_commands
    &&& strings_view(i.manual_steps@) == m.manual_steps
    &&& strings_view(i.related_files@) == m.related_files
}

/// The catalog entry of a template file at `path`, listed as `relative_path`.
pub fn template_info(path: &str, relative_path: &str, size: u64, installable: bool) -> (r:
    TemplateInfo)
    ensures
        info_matches(
            r,
            path@,
            relative_path@,
            size,
            metadata_of(relative_path@, info_file_name(path@, relative_path@), installable),
        ),
{
    let file_name = match crate::path::file_name_exec(path) {
        Some(f) => f,
        None => String::from_str(relative_path),
    };
    let meta = template_metadata(relative_path, file_name.as_str(), installable);
    TemplateInfo {
        name: String::from_str(relative_path),
        display_name: meta.display_name,
        path: String::from_str(path),
        relative_path: String::from_str(relative_path),
        size,
        category: meta.category,
        target_app: meta.target_app,
        automation_level: meta.automation_level,
        installable: meta.installable,
        default_output_path: meta.default_output_path,
        default_post_hook: meta.default_post_hook,
        required_commands: meta.required_commands,
        manual_steps: meta.manual_steps,
        related_files: meta.related_files,
    }
}


pub struct InfoView {
    pub name: Seq<char>,
    pub display_name: Seq<char>,
    pub path: Seq<char>,
    pub relative_path: Seq<char>,
    pub size: u64,
    pub category: Seq<char>,
    pub target_app: Seq<char>,
    pub automation_level: Seq<char>,
    pub installable: bool,
    pub default_output_path: Option<Seq<char>>,
    pub default_post_hook: Option<Seq<char>>,
    pub required_commands: Seq<Seq<char>>,
    pub manual_steps: Seq<Seq<char>>,
    pub related_files: Seq<Seq<char>>,
}

impl View for TemplateInfo {
    type V = InfoView;

    open spec fn view(&self) -> InfoView {
        InfoView {
            name: self.name@,
            display_name: self.display_name@,
            path: self.path@,
            relative_path: self.relative_path@,
            size: self.size,
            category: self.category@,
            target_app: self.target_app@,
            automation_level: self.automation_level@,
            installable: self.installable,
            default_output_path: context::opt_view(self.default_output_path),
            default_post_hook: context::opt_view(self.default_post_hook),
            required_commands: strings_view(self.required_commands@),
            manual_steps: strings_view(self.manual_steps@),
            related_files: strings_view(self.related_files@),
        }
    }
}

/// A copy of the strings.
pub fn copy_strings(v: &Vec<String>) -> (r: Vec<String>)
    ensures
        strings_view(r@) == strings_view(v@),
{
    let mut out: Vec<String> = Vec::new();
    let mut i: usize = 0;
    while i < v.len()
        invariant
            i <= v.len(),
            out.len() == i,
            forall|k: int| 0 <= k < i ==> #[trigger] out@[k]@ == v@[k]@,
        decreases v.len() - i,
    {
        out.push(v[i].clone());
        i = i + 1;
    }
    assert(strings_view(out@) =~= strings_view(v@));
    out
}

pub fn copy_opt(o: &Option<String>) -> (r: Option<String>)
    ensures
        context::opt_view(r) == context::opt_view(*o),
{
    match o {
        Some(s) => Some(s.clone()),
        None => None,
    }
}

impl TemplateInfo {
    /// A field-by-field copy.
    pub fn copy(&self) -> (r: TemplateInfo)
        ensures
            r@ == self@,
    {
        TemplateInfo {
            name: self.name.clone(),
            display_name: self.display_name.clone(),
            path: self.path.clone(),
            relative_path: self.relative_path.clone(),
            size: self.size,
            category: self.category.clone(),
            target_app: self.target_app.clone(),
            automation_level: self.automation_level.clone(),
            installable: self.installable,
            default_output_path: copy_opt(&self.default_output_path),
            default_post_hook: copy_opt(&self.default_post_hook),
            required_commands: copy_strings(&self.required_commands),
            manual_steps: copy_strings(&self.manual_steps),
            related_files: copy_strings(&self.related_files),
        }
    }
}

// ── What every template's metadata keeps to ─────────────────────────────────

/// A step of the manual instructions is a `templates.steps.*` message key.
pub open spec fn is_step_key(s: Seq<char>) -> bool {
    text::starts_with(s, "templates.steps."@)
}

/// The metadata keeps to the interface's vocabulary: one of the known
/// categories and automation levels, and step keys for the manual steps.
pub open spec fn metadata_in_range(m: MetadataView) -> bool {
    &&& (m.category == "KDE Plasma"@ || m.category == "Terminals"@ || m.category == "Shell Tools"@
        || m.category == "Browsers"@ || m.category == "Editors"@ || m.category == "Apps"@
        || m.category == "Websites"@)
    &&& (m.automation_level == "auto"@ || m.automation_level == "config-patch"@ || m.automation_level
        == "manual"@)
    &&& forall|i: int| 0 <= i < m.manual_steps.len() ==> is_step_key(#[trigger] m.manual_steps[i])
}

proof fn lemma_step_literals()
    ensures
        is_step_key("templates.steps.aercStyleset"@),
        is_step_key("templates.steps.alacrittyImport"@),
        is_step_key("templates.steps.btopChooseTheme"@),
        is_step_key("templates.steps.cavaSetTheme"@),
        is_step_key("templates.steps.discordActivate"@),
        is_step_key("templates.steps.footIncludeConfig"@),
        is_step_key("templates.steps.ghosttySetTheme"@),
        is_step_key("templates.steps.ghostwriterSetTheme"@),
        is_step_key("templates.steps.gtkImportColors"@),
        is_step_key("templates.steps.helixSetTheme"@),
        is_step_key("templates.steps.heroicCustomThemesPath"@),
        is_step_key("templates.steps.heroicSelectTheme"@),
        is_step_key("templates.steps.kittyApplyTheme"@),
        is_step_key("templates.steps.kvantumSetTheme"@),
        is_step_key("templates.steps.neovimBase16"@),
        is_step_key("templates.steps.neovimReloadHook"@),
        is_step_key("templates.steps.papirusInstall"@),
        is_step_key("templates.steps.papirusPostHook"@),
        is_step_key("templates.steps.qtctInstallStyle"@),
        is_step_key("templates.steps.qtctPlatformTheme"@),
        is_step_key("templates.steps.rmpcSetTheme"@),
        is_step_key("templates.steps.spicetifyConfig"@),
        is_step_key("templates.steps.spicetifyDownloadSleek"@),
        is_step_key("templates.steps.steamEnableCustomCss"@),
        is_step_key("templates.steps.steamInstallAdwSteamGtk"@),
        is_step_key("templates.steps.telegramApply"@),
        is_step_key("templates.steps.telegramManualIntro"@),
        is_step_key("templates.steps.vivaldiEnableExperiment"@),
        is_step_key("templates.steps.vivaldiSelectFolder"@),
        is_step_key("templates.steps.vscodeInstallExtension"@),
        is_step_key("templates.steps.websiteCopyCss"@),
        is_step_key("templates.steps.websiteEnableStylesheets"@),
        is_step_key("templates.steps.websiteImport"@),
        is_step_key("templates.steps.zellijAddTheme"@),
        is_step_key("templates.steps.zenEnableStylesheets"@),
        is_step_key("templates.steps.zenImportChrome"@),
{
    reveal_strlit("templates.steps.");
    reveal_strlit("templates.steps.aercStyleset");
    assert("templates.steps.aercStyleset"@.subrange(0, 16) =~= "templates.steps."@);
    reveal_strlit("templates.steps.alacrittyImport");
    assert("templates.steps.alacrittyImport"@.subrange(0, 16) =~= "templates.steps."@);
    reveal_strlit("templates.steps.btopChooseTheme");
    assert("templates.steps.btopChooseTheme"@.subrange(0, 16) =~= "templates.steps."@);
    reveal_strlit("templates.steps.cavaSetTheme");
    assert("templates.steps.cavaSetTheme"@.subrange(0, 16) =~= "templates.steps."@);
    reveal_strlit("templates.steps.discordActivate");
    assert("templates.steps.discordActivate"@.subrange(0, 16) =~= "templates.steps."@);
    reveal_strlit("templates.steps.footIncludeConfig");
    assert("templates.steps.footIncludeConfig"@.subrange(0, 16) =~= "templates.steps."@);
    reveal_strlit("templates.steps.ghosttySetTheme");
    assert("templates.steps.ghosttySetTheme"@.subrange(0, 16) =~= "templates.steps."@);
    reveal_strlit("templates.steps.ghostwriterSetTheme");
    assert("templates.steps.ghostwriterSetTheme"@.subrange(0, 16) =~= "templates.steps."@);
    reveal_strlit("templates.steps.gtkImportColors");
    assert("templates.steps.gtkImportColors"@.subrange(0, 16) =~= "templates.steps."@);
    reveal_strlit("templates.steps.helixSetTheme");
    assert("templates.steps.helixSetTheme"@.subrange(0, 16) =~= "templates.steps."@);
    reveal_strlit("templates.steps.heroicCustomThemesPath");
    assert("templates.steps.heroicCustomThemesPath"@.subrange(0, 16) =~= "templates.steps."@);
    reveal_strlit("templates.steps.heroicSelectTheme");
    assert("templates.steps.heroicSelectTheme"@.subrange(0, 16) =~= "templates.steps."@);
    reveal_strlit("templates.steps.kittyApplyTheme");
    assert("templates.steps.kittyApplyTheme"@.subrange(0, 16) =~= "templates.steps."@);
    reveal_strlit("templates.steps.kvantumSetTheme");
    assert("templates.steps.kvantumSetTheme"@.subrange(0, 16) =~= "templates.steps."@);
    reveal_strlit("templates.steps.neovimBase16");
    assert("templates.steps.neovimBase16"@.subrange(0, 16) =~= "templates.steps."@);
    reveal_strlit("templates.steps.neovimReloadHook");
    assert("templates.steps.neovimReloadHook"@.subrange(0, 16) =~= "templates.steps."@);
    reveal_strlit("templates.steps.papirusInstall");
    assert("templates.steps.papirusInstall"@.subrange(0, 16) =~= "templates.steps."@);
    reveal_strlit("templates.steps.papirusPostHook");
    assert("templates.steps.papirusPostHook"@.subrange(0, 16) =~= "templates.steps."@);
    reveal_strlit("templates.steps.qtctInstallStyle");
    assert("templates.steps.qtctInstallStyle"@.subrange(0, 16) =~= "templates.steps."@);
    reveal_strlit("templates.steps.qtctPlatformTheme");
    assert("templates.steps.qtctPlatformTheme"@.subrange(0, 16) =~= "templates.steps."@);
    reveal_strlit("templates.steps.rmpcSetTheme");
    assert("templates.steps.rmpcSetTheme"@.subrange(0, 16) =~= "templates.steps."@);
    reveal_strlit("templates.steps.spicetifyConfig");
    assert("templates.steps.spicetifyConfig"@.subrange(0, 16) =~= "templates.steps."@);
    reveal_strlit("templates.steps.spicetifyDownloadSleek");
    assert("templates.steps.spicetifyDownloadSleek"@.subrange(0, 16) =~= "templates.steps."@);
    reveal_strlit("templates.steps.steamEnableCustomCss");
    assert("templates.steps.steamEnableCustomCss"@.subrange(0, 16) =~= "templates.steps."@);
    reveal_strlit("templates.steps.steamInstallAdwSteamGtk");
    assert("templates.steps.steamInstallAdwSteamGtk"@.subrange(0, 16) =~= "templates.steps."@);
    reveal_strlit("templates.steps.telegramApply");
    assert("templates.steps.telegramApply"@.subrange(0, 16) =~= "templates.steps."@);
    reveal_strlit("templates.steps.telegramManualIntro");
    assert("templates.steps.telegramManualIntro"@.subrange(0, 16) =~= "templates.steps."@);
    reveal_strlit("templates.steps.vivaldiEnableExperiment");
    assert("templates.steps.vivaldiEnableExperiment"@.subrange(0, 16) =~= "templates.steps."@);
    reveal_strlit("templates.steps.vivaldiSelectFolder");
    assert("templates.steps.vivaldiSelectFolder"@.subrange(0, 16) =~= "templates.steps."@);
    reveal_strlit("templates.steps.vscodeInstallExtension");
    assert("templates.steps.vscodeInstallExtension"@.subrange(0, 16) =~= "templates.steps."@);
    reveal_strlit("templates.steps.websiteCopyCss");
    assert("templates.steps.websiteCopyCss"@.subrange(0, 16) =~= "templates.steps."@);
    reveal_strlit("templates.steps.websiteEnableStylesheets");
    assert("templates.steps.websiteEnableStylesheets"@.subrange(0, 16) =~= "templates.steps."@);
    reveal_strlit("templates.steps.websiteImport");
    assert("templates.steps.websiteImport"@.subrange(0, 16) =~= "templates.steps."@);
    reveal_strlit("templates.steps.zellijAddTheme");
    assert("templates.steps.zellijAddTheme"@.subrange(0, 16) =~= "templates.steps."@);
    reveal_strlit("templates.steps.zenEnableStylesheets");
    assert("templates.steps.zenEnableStylesheets"@.subrange(0, 16) =~= "templates.steps."@);
    reveal_strlit("templates.steps.zenImportChrome");
    assert("templates.steps.zenImportChrome"@.subrange(0, 16) =~= "templates.steps."@);
}

proof fn lemma_manual_steps_in_range(f: Seq<char>)
    ensures
        forall|i: int| 0 <= i < manual_steps_of(f).len() ==> is_step_key(#[trigger] manual_steps_of(f)[i]),
{
    lemma_step_literals();
}

proof fn lemma_curated_in_range(f: Seq<char>, m: MetadataView)
    requires
        metadata_in_range(m),
    ensures
        metadata_in_range(curated_1(f, m)),
        metadata_in_range(curated_2(f, m)),
        metadata_in_range(curated_3(f, m)),
        metadata_in_range(curated_4(f, m)),
        metadata_in_range(curated_5(f, m)),
{
    lemma_step_literals();
}

/// Every template's metadata keeps to the interface's vocabulary (known
/// category and automation level, `templates.steps.*` step keys), and a
/// website stylesheet is never installable and has no output path.
pub proof fn lemma_metadata_in_range(relative_path: Seq<char>, f: Seq<char>, installable: bool)
    ensures
        metadata_in_range(metadata_of(relative_path, f, installable)),
        text::starts_with(relative_path, "websites/"@) ==> !metadata_of(relative_path, f, installable).installable
            && metadata_of(relative_path, f, installable).default_output_path is None,
{
    lemma_step_literals();
    lemma_manual_steps_in_range(f);
    let b = base_metadata(f, installable);
    assert(metadata_in_range(b));
    lemma_curated_in_range(f, b);
    let m1 = curated_1(f, b);
    lemma_curated_in_range(f, m1);
    let m2 = curated_2(f, m1);
    lemma_curated_in_range(f, m2);
    let m3 = curated_3(f, m2);
    lemma_curated_in_range(f, m3);
    let m4 = curated_4(f, m3);
    lemma_curated_in_range(f, m4);
    let m = curated_5(f, m4);
    assert(m == curated(f, b));
}

} // verus!
