//! The Wallhaven client's own logic: the search query, the checks on a
//! wallpaper's identity and size, and the request window that keeps the
//! client under the site's rate limit.
use vstd::prelude::*;
use crate::context::{opt_view, str_eq};
use crate::path;
use crate::text;

verus! {

/// The search filters the interface sends.
#[derive(Debug, Clone)]
pub struct WallhavenSearchParams {
    pub q: Option<String>,
    pub categories: Option<String>,
    pub purity: Option<String>,
    pub sorting: Option<String>,
    pub order: Option<String>,
    pub top_range: Option<String>,
    pub colors: Option<String>,
    pub ratios: Option<String>,
    pub atleast: Option<String>,
    pub page: Option<u32>,
    pub seed: Option<String>,
    pub api_key: Option<String>,
}

#[derive(Debug, Clone)]
pub struct WallhavenThumbs {
    pub large: String,
    pub original: String,
    pub small: String,
}

#[derive(Debug, Clone)]
pub struct WallhavenWallpaper {
    pub id: String,
    pub url: String,
    pub short_url: String,
    pub views: u64,
    pub favorites: u64,
    pub source: String,
    pub purity: String,
    pub category: String,
    pub dimension_x: u32,
    pub dimension_y: u32,
    pub resolution: String,
    pub ratio: String,
    pub file_size: u64,
    pub file_type: String,
    pub created_at: String,
    pub colors: Vec<String>,
    pub path: String,
    pub thumbs: WallhavenThumbs,
    pub tags: Option<Vec<WallhavenTag>>,
    pub uploader: Option<WallhavenUploader>,
}

#[derive(Debug, Clone)]
pub struct WallhavenTag {
    pub id: u64,
    pub name: String,
    pub alias: String,
    pub category_id: u64,
    pub category: String,
    pub purity: String,
}

#[derive(Debug, Clone)]
pub struct WallhavenUploader {
    pub username: String,
    pub group: String,
}

/// The account settings that an API key unlocks.
#[derive(Debug, Clone)]
pub struct WallhavenSettingsData {
    pub purity: Vec<String>,
    pub categories: Vec<String>,
}

// ── The search query ─────────────────────────────────────────────────────────

/// A filter that is set and not blank.
pub open spec fn given(o: Option<String>) -> Option<Seq<char>> {
    match o {
        Some(s) => if text::trim(s@).len() > 0 {
            Some(s@)
        } else {
            None
        },
        None => None,
    }
}

/// The pair `(name, value)` where the filter is given, else nothing.
pub open spec fn optional_pair(name: Seq<char>, o: Option<String>) -> Seq<(Seq<char>, Seq<char>)> {
    match given(o) {
        Some(v) => seq![(name, v)],
        None => Seq::empty(),
    }
}

pub open spec fn or_default(o: Option<String>, d: Seq<char>) -> Seq<char> {
    match o {
        Some(s) => s@,
        None => d,
    }
}

/// The query of a search, in order: `q` where given; `categories`
/// (default `111`), `purity` (`100`), `sorting` (`date_added`), `order`
/// (`desc`); `topRange`, `colors`, `ratios`, `atleast` where given; `page`
/// (1); `seed` and `apikey` where given.
pub open spec fn search_query_of(p: WallhavenSearchParams) -> Seq<(Seq<char>, Seq<char>)> {
    optional_pair("q"@, p.q) + seq![
        ("categories"@, or_default(p.categories, "111"@)),
        ("purity"@, or_default(p.purity, "100"@)),
        ("sorting"@, or_default(p.sorting, "date_added"@)),
        ("order"@, or_default(p.order, "desc"@)),
    ] + optional_pair("topRange"@, p.top_range) + optional_pair("colors"@, p.colors) + optional_pair(
        "ratios"@,
        p.ratios,
    ) + optional_pair("atleast"@, p.atleast) + seq![
        ("page"@, text::dec(
            match p.page {
                Some(n) => n as nat,
                None => 1,
            },
        )),
    ] + optional_pair("seed"@, p.seed) + optional_pair("apikey"@, p.api_key)
}

pub open spec fn query_view(v: Seq<(&'static str, String)>) -> Seq<(Seq<char>, Seq<char>)> {
    v.map_values(|e: (&'static str, String)| (e.0@, e.1@))
}

fn given_exec(o: &Option<String>) -> (r: Option<String>)
    ensures
        opt_view(r) == given(*o),
{
    match o {
        Some(s) => if text::trim_exec(&text::chars_of(s.as_str())).len() > 0 {
            Some(s.clone())
        } else {
            None
        },
        None => None,
    }
}

fn push_given(q: &mut Vec<(&'static str, String)>, name: &'static str, o: &Option<String>)
    ensures
        query_view(final(q)@) == query_view(old(q)@) + optional_pair(name@, *o),
{
    let ghost before = query_view(q@);
    match given_exec(o) {
        Some(v) => {
            q.push((name, v));
            assert(query_view(q@) =~= before + optional_pair(name@, *o));
        },
        None => {
            assert(query_view(q@) =~= before + optional_pair(name@, *o));
        },
    }
}

fn push_or(q: &mut Vec<(&'static str, String)>, name: &'static str, o: &Option<String>, d: &str)
    ensures
        query_view(final(q)@) == query_view(old(q)@).push((name@, or_default(*o, d@))),
{
    let v = match o {
        Some(s) => s.clone(),
        None => String::from_str(d),
    };
    q.push((name, v));
    assert(query_view(q@) =~= query_view(old(q)@).push((name@, or_default(*o, d@))));
}

pub fn search_query(params: &WallhavenSearchParams) -> (r: Vec<(&'static str, String)>)
    ensures
        query_view(r@) == search_query_of(*params),
{
    let mut q: Vec<(&'static str, String)> = Vec::new();
    assert(query_view(q@) =~= Seq::<(Seq<char>, Seq<char>)>::empty());
    push_given(&mut q, "q", &params.q);
    push_or(&mut q, "categories", &params.categories, "111");
    push_or(&mut q, "purity", &params.purity, "100");
    push_or(&mut q, "sorting", &params.sorting, "date_added");
    push_or(&mut q, "order", &params.order, "desc");
    push_given(&mut q, "topRange", &params.top_range);
    push_given(&mut q, "colors", &params.colors);
    push_given(&mut q, "ratios", &params.ratios);
    push_given(&mut q, "atleast", &params.atleast);
    let mut page: Vec<char> = Vec::new();
    let n: u32 = match params.page {
        Some(n) => n,
        None => 1,
    };
    text::push_dec(&mut page, n as u64);
    let ghost before = query_view(q@);
    q.push(("page", text::string_of(&page)));
    assert(query_view(q@) =~= before.push(("page"@, text::dec(n as nat))));
    push_given(&mut q, "seed", &params.seed);
    push_given(&mut q, "apikey", &params.api_key);
    assert(query_view(q@) =~= search_query_of(*params));
    q
}

/// The query of a wallpaper's details: the API key where given.
pub fn wallpaper_query(api_key: &Option<String>) -> (r: Vec<(&'static str, String)>)
    ensures
        query_view(r@) == optional_pair("apikey"@, *api_key),
{
    let mut q: Vec<(&'static str, String)> = Vec::new();
    assert(query_view(q@) =~= Seq::<(Seq<char>, Seq<char>)>::empty());
    push_given(&mut q, "apikey", api_key);
    assert(query_view(q@) =~= optional_pair("apikey"@, *api_key));
    q
}

/// The address of a wallpaper's details.
pub fn wallpaper_url(id: &str) -> (r: String)
    ensures
        r@ == "https://wallhaven.cc/api/v1/w/"@ + id@,
{
    let mut out = text::chars_of("https://wallhaven.cc/api/v1/w/");
    text::push_str(&mut out, id);
    text::string_of(&out)
}

/// An API key to validate: trimmed, not empty.
pub fn validated_api_key(api_key: &str) -> (r: Result<String, String>)
    ensures
        r matches Ok(k) ==> text::trim(api_key@).len() > 0 && k@ == text::trim(api_key@),
        r matches Err(e) ==> text::trim(api_key@).len() == 0 && e@ == "Informe uma chave de API"@,
{
    let t = text::trim_exec(&text::chars_of(api_key));
    if t.len() == 0 {
        Err(String::from_str("Informe uma chave de API"))
    } else {
        Ok(text::string_of(&t))
    }
}

/// A status that means the key is refused: 401, 403 or 404.
pub fn key_refused(status: u16) -> (r: bool)
    ensures
        r == (status == 401 || status == 403 || status == 404),
{
    status == 401 || status == 403 || status == 404
}

// ── A wallpaper's identity ───────────────────────────────────────────────────

/// A Wallhaven ID: 3 to 40 ASCII letters and digits.
pub open spec fn valid_wallpaper_id(id: Seq<char>) -> bool {
    3 <= id.len() <= 40 && forall|i: int| 0 <= i < id.len() ==> text::is_ascii_alnum(#[trigger] id[i])
}

/// `validate_wallpaper_identity` once the URL is parsed into its scheme, host
/// and path: the ID's form, the image host over HTTPS, and an image extension
/// (lower-cased) that is returned.
pub open spec fn wallpaper_identity_of(
    id: Seq<char>,
    scheme: Seq<char>,
    host: Option<Seq<char>>,
    url_path: Seq<char>,
) -> Result<Seq<char>, Seq<char>> {
    if !valid_wallpaper_id(id) {
        Err("Invalid Wallhaven ID"@)
    } else if scheme != "https"@ || host != Some("w.wallhaven.cc"@) {
        Err("Wallpaper URL must use the Wallhaven image host"@)
    } else {
        match path::extension(url_path) {
            None => Err("Missing image extension"@),
            Some(e) => {
                let l = text::lower(e);
                if l == "jpg"@ || l == "jpeg"@ || l == "png"@ || l == "webp"@ {
                    Ok(l)
                } else {
                    Err("Unsupported image extension"@)
                }
            },
        }
    }
}

/// The ID check of `validate_wallpaper_identity`, before the URL is parsed.
pub fn wallpaper_id_valid(id: &str) -> (r: bool)
    ensures
        r == valid_wallpaper_id(id@),
{
    let v = text::chars_of(id);
    if v.len() < 3 || v.len() > 40 {
        return false;
    }
    let mut i: usize = 0;
    while i < v.len()
        invariant
            i <= v.len(),
            v@ == id@,
            forall|k: int| 0 <= k < i ==> text::is_ascii_alnum(#[trigger] v@[k]),
        decreases v.len() - i,
    {
        let c = v[i];
        if !(('a' <= c && c <= 'z') || ('A' <= c && c <= 'Z') || ('0' <= c && c <= '9')) {
            return false;
        }
        i = i + 1;
    }
    true
}

/// `validate_wallpaper_identity` with the parsed URL's parts.
pub fn wallpaper_identity(id: &str, scheme: &str, host: Option<&str>, url_path: &str) -> (r: Result<String, String>)
    ensures
        r matches Ok(e) ==> wallpaper_identity_of(id@, scheme@, crate::wallpaper::opt_str(host), url_path@)
            == Ok::<Seq<char>, Seq<char>>(e@),
        r matches Err(e) ==> wallpaper_identity_of(id@, scheme@, crate::wallpaper::opt_str(host), url_path@)
            == Err::<Seq<char>, Seq<char>>(e@),
{
    if !wallpaper_id_valid(id) {
        return Err(String::from_str("Invalid Wallhaven ID"));
    }
    let host_ok = match host {
        Some(h) => str_eq(h, "w.wallhaven.cc"),
        None => false,
    };
    if !str_eq(scheme, "https") || !host_ok {
        return Err(String::from_str("Wallpaper URL must use the Wallhaven image host"));
    }
    match path::extension_exec(url_path) {
        None => Err(String::from_str("Missing image extension")),
        Some(e) => {
            let l = text::lower_exec(&text::chars_of(e.as_str()));
            if text::eq_str(&l, "jpg") || text::eq_str(&l, "jpeg") || text::eq_str(&l, "png") || text::eq_str(
                &l,
                "webp",
            ) {
                Ok(text::string_of(&l))
            } else {
                Err(String::from_str("Unsupported image extension"))
            }
        },
    }
}

/// The largest download accepted: 50 MB.
pub open spec fn max_download() -> nat {
    50 * 1024 * 1024
}

/// The size checks of `fetch_wallpaper`: a declared or received length above
/// 50 MB is refused.
pub fn check_download_size(length: u64) -> (r: Result<(), String>)
    ensures
        r is Ok <==> length <= max_download(),
        r matches Err(e) ==> e@ == "Wallpaper exceeds 50 MB"@,
{
    if length > 50 * 1024 * 1024 {
        Err(String::from_str("Wallpaper exceeds 50 MB"))
    } else {
        Ok(())
    }
}

// ── The request window ───────────────────────────────────────────────────────

/// The most requests in one window.
pub open spec fn max_requests() -> nat {
    45
}

/// The requests of the window, oldest first; times in milliseconds.
pub open spec fn window_ordered(stamps: Seq<u64>) -> bool {
    forall|i: int, j: int| 0 <= i < j < stamps.len() ==> stamps[i] <= stamps[j]
}

/// `RateLimiter::acquire`, one round: requests older than the window are
/// dropped; then either the request is recorded (`None`), or the wait until
/// the oldest leaves the window is returned.
pub fn acquire_step(stamps: &mut Vec<u64>, now: u64, window: u64) -> (wait: Option<u64>)
    requires
        window_ordered(old(stamps)@),
        forall|i: int| 0 <= i < old(stamps)@.len() ==> old(stamps)@[i] <= now,
        old(stamps)@.len() <= max_requests(),
    ensures
        window_ordered(final(stamps)@),
        final(stamps)@.len() <= max_requests(),
        forall|i: int| 0 <= i < final(stamps)@.len() ==> final(stamps)@[i] <= now && now - final(stamps)@[i] <= window,
        wait is None ==> final(stamps)@.len() >= 1 && final(stamps)@.last() == now,
        wait matches Some(w) ==> final(stamps)@.len() == max_requests() && w == window - (now - final(stamps)@[0]),
        final(stamps)@ == (if wait is None {
            old(stamps)@.skip(old(stamps)@.len() - final(stamps)@.len() + 1).push(now)
        } else {
            old(stamps)@.skip(old(stamps)@.len() - final(stamps)@.len())
        }),
{
    let ghost orig = stamps@;
    let ghost mut dropped: int = 0;
    while stamps.len() > 0 && now - stamps[0] > window
        invariant
            0 <= dropped <= orig.len(),
            stamps@ == orig.skip(dropped),
            window_ordered(orig),
            forall|i: int| 0 <= i < orig.len() ==> orig[i] <= now,
            orig.len() <= max_requests(),
        decreases stamps.len(),
    {
        stamps.remove(0);
        proof {
            dropped = dropped + 1;
        }
        assert(stamps@ =~= orig.skip(dropped));
    }
    assert(forall|i: int| 0 <= i < stamps@.len() ==> stamps@[i] == orig[i + dropped]);
    if stamps.len() < 45 {
        let ghost before = stamps@;
        stamps.push(now);
        assert(stamps@.drop_last() =~= before);
        assert(stamps@ =~= orig.skip(orig.len() - stamps@.len() + 1).push(now));
        None
    } else {
        let oldest = stamps[0];
        Some(window - (now - oldest))
    }
}

// ── What a search sends ──────────────────────────────────────────────────────

/// Some pair of the query is named `n`.
pub open spec fn has_name(r: Seq<(Seq<char>, Seq<char>)>, n: Seq<char>) -> bool {
    exists|i: int| 0 <= i < r.len() && (#[trigger] r[i]).0 == n
}

/// A filter the user typed something into: set, and not blank.
pub open spec fn typed(o: Option<String>) -> bool {
    o matches Some(s) && text::trim(s@).len() > 0
}

/// The text of a typed filter.
pub open spec fn typed_text(o: Option<String>) -> Seq<char> {
    match o {
        Some(s) => s@,
        None => Seq::empty(),
    }
}

proof fn lemma_has_name_concat(a: Seq<(Seq<char>, Seq<char>)>, b: Seq<(Seq<char>, Seq<char>)>, n: Seq<char>)
    ensures
        has_name(a + b, n) <==> has_name(a, n) || has_name(b, n),
{
    if has_name(a + b, n) {
        let i = choose|i: int| 0 <= i < (a + b).len() && (#[trigger] (a + b)[i]).0 == n;
        if i < a.len() {
            assert(a[i] == (a + b)[i]);
        } else {
            assert(b[i - a.len()] == (a + b)[i]);
        }
    }
    if has_name(a, n) {
        let i = choose|i: int| 0 <= i < a.len() && (#[trigger] a[i]).0 == n;
        assert((a + b)[i] == a[i]);
    }
    if has_name(b, n) {
        let i = choose|i: int| 0 <= i < b.len() && (#[trigger] b[i]).0 == n;
        assert((a + b)[a.len() + i] == b[i]);
    }
}

proof fn lemma_optional_pair_name(name: Seq<char>, o: Option<String>, n: Seq<char>)
    ensures
        has_name(optional_pair(name, o), n) <==> (typed(o) && name == n),
{
    if typed(o) {
        assert(optional_pair(name, o)[0].0 == name);
    }
}

proof fn lemma_one_name(e: (Seq<char>, Seq<char>), n: Seq<char>)
    ensures
        has_name(seq![e], n) <==> e.0 == n,
{
    if e.0 == n {
        assert(seq![e][0].0 == n);
    }
}

/// Which names the query holds: each filter's pair is there exactly when the
/// filter is typed, and the four defaulted ones and the page always are.
proof fn lemma_query_names(p: WallhavenSearchParams, n: Seq<char>)
    ensures
        has_name(search_query_of(p), n) <== {
            ||| n == "categories"@ || n == "purity"@ || n == "sorting"@ || n == "order"@ || n == "page"@
            ||| (n == "q"@ && typed(p.q))
        },
        has_name(search_query_of(p), n) ==> {
            ||| n == "categories"@ || n == "purity"@ || n == "sorting"@ || n == "order"@ || n == "page"@
            ||| (n == "q"@ && typed(p.q)) || (n == "topRange"@ && typed(p.top_range))
            ||| (n == "colors"@ && typed(p.colors)) || (n == "ratios"@ && typed(p.ratios))
            ||| (n == "atleast"@ && typed(p.atleast)) || (n == "seed"@ && typed(p.seed))
            ||| (n == "apikey"@ && typed(p.api_key))
        },
{
    let a = optional_pair("q"@, p.q);
    let b = seq![
        ("categories"@, or_default(p.categories, "111"@)),
        ("purity"@, or_default(p.purity, "100"@)),
        ("sorting"@, or_default(p.sorting, "date_added"@)),
        ("order"@, or_default(p.order, "desc"@)),
    ];
    let c = optional_pair("topRange"@, p.top_range);
    let d = optional_pair("colors"@, p.colors);
    let e = optional_pair("ratios"@, p.ratios);
    let f = optional_pair("atleast"@, p.atleast);
    let g = seq![("page"@, text::dec(match p.page { Some(k) => k as nat, None => 1 }))];
    let h = optional_pair("seed"@, p.seed);
    let k = optional_pair("apikey"@, p.api_key);
    lemma_has_name_concat(a, b, n);
    lemma_has_name_concat(a + b, c, n);
    lemma_has_name_concat(a + b + c, d, n);
    lemma_has_name_concat(a + b + c + d, e, n);
    lemma_has_name_concat(a + b + c + d + e, f, n);
    lemma_has_name_concat(a + b + c + d + e + f, g, n);
    lemma_has_name_concat(a + b + c + d + e + f + g, h, n);
    lemma_has_name_concat(a + b + c + d + e + f + g + h, k, n);
    lemma_optional_pair_name("q"@, p.q, n);
    lemma_optional_pair_name("topRange"@, p.top_range, n);
    lemma_optional_pair_name("colors"@, p.colors, n);
    lemma_optional_pair_name("ratios"@, p.ratios, n);
    lemma_optional_pair_name("atleast"@, p.atleast, n);
    lemma_optional_pair_name("seed"@, p.seed, n);
    lemma_optional_pair_name("apikey"@, p.api_key, n);
    lemma_one_name(g[0], n);
    assert(g == seq![g[0]]);
    if n == "categories"@ || n == "purity"@ || n == "sorting"@ || n == "order"@ {
        let i: int = if n == "categories"@ { 0 } else if n == "purity"@ { 1 } else if n == "sorting"@ { 2 } else { 3 };
        assert(b[i].0 == n);
    }
    if has_name(b, n) {
        let i = choose|i: int| 0 <= i < b.len() && (#[trigger] b[i]).0 == n;
        assert(i == 0 || i == 1 || i == 2 || i == 3);
    }
}

/// A search sends what the user typed as `q`, first, and no `q` otherwise;
/// each other typed filter is sent under its own name with its text and
/// left out where it is not typed; categories, purity, sorting and order
/// are always sent, with their defaults `111`, `100`, `date_added` and
/// `desc`; and the page is always sent, the first by default.
#[verifier::rlimit(40)]
pub proof fn lemma_search_query_sends_filters(p: WallhavenSearchParams)
    ensures
        ({
            let r = search_query_of(p);
            &&& typed(p.q) ==> r[0] == ("q"@, typed_text(p.q))
            &&& !typed(p.q) ==> !has_name(r, "q"@) && r[0].0 == "categories"@
            &&& r.contains(("categories"@, match p.categories { Some(s) => s@, None => "111"@ }))
            &&& r.contains(("purity"@, match p.purity { Some(s) => s@, None => "100"@ }))
            &&& r.contains(("sorting"@, match p.sorting { Some(s) => s@, None => "date_added"@ }))
            &&& r.contains(("order"@, match p.order { Some(s) => s@, None => "desc"@ }))
            &&& r.contains(("page"@, text::dec(match p.page { Some(k) => k as nat, None => 1 })))
            &&& typed(p.top_range) ==> r.contains(("topRange"@, typed_text(p.top_range)))
            &&& typed(p.colors) ==> r.contains(("colors"@, typed_text(p.colors)))
            &&& typed(p.ratios) ==> r.contains(("ratios"@, typed_text(p.ratios)))
            &&& typed(p.atleast) ==> r.contains(("atleast"@, typed_text(p.atleast)))
            &&& typed(p.seed) ==> r.contains(("seed"@, typed_text(p.seed)))
            &&& typed(p.api_key) ==> r.contains(("apikey"@, typed_text(p.api_key)))
            &&& !typed(p.top_range) ==> !has_name(r, "topRange"@)
            &&& !typed(p.colors) ==> !has_name(r, "colors"@)
            &&& !typed(p.ratios) ==> !has_name(r, "ratios"@)
            &&& !typed(p.atleast) ==> !has_name(r, "atleast"@)
            &&& !typed(p.seed) ==> !has_name(r, "seed"@)
            &&& !typed(p.api_key) ==> !has_name(r, "apikey"@)
        }),
{
    reveal_strlit("q");
    reveal_strlit("categories");
    reveal_strlit("purity");
    reveal_strlit("sorting");
    reveal_strlit("order");
    reveal_strlit("topRange");
    reveal_strlit("colors");
    reveal_strlit("ratios");
    reveal_strlit("atleast");
    reveal_strlit("page");
    reveal_strlit("seed");
    reveal_strlit("apikey");
    let r = search_query_of(p);
    let a = optional_pair("q"@, p.q);
    let b = seq![
        ("categories"@, or_default(p.categories, "111"@)),
        ("purity"@, or_default(p.purity, "100"@)),
        ("sorting"@, or_default(p.sorting, "date_added"@)),
        ("order"@, or_default(p.order, "desc"@)),
    ];
    let c = optional_pair("topRange"@, p.top_range);
    let d = optional_pair("colors"@, p.colors);
    let e = optional_pair("ratios"@, p.ratios);
    let f = optional_pair("atleast"@, p.atleast);
    let g = seq![("page"@, text::dec(match p.page { Some(k) => k as nat, None => 1 }))];
    let h = optional_pair("seed"@, p.seed);
    let k = optional_pair("apikey"@, p.api_key);
    assert(r == a + b + c + d + e + f + g + h + k);
    let al = a.len() as int;
    let bl = al + 4;
    let cl = bl + c.len();
    let dl = cl + d.len();
    let el = dl + e.len();
    let fl = el + f.len();
    let gl = fl + 1;
    let hl = gl + h.len();
    assert(r[al] == b[0]);
    assert(r[al + 1] == b[1]);
    assert(r[al + 2] == b[2]);
    assert(r[al + 3] == b[3]);
    assert(r[fl] == g[0]);
    if typed(p.q) {
        assert(r[0] == a[0]);
    }
    if typed(p.top_range) {
        assert(r[bl] == c[0]);
    }
    if typed(p.colors) {
        assert(r[cl] == d[0]);
    }
    if typed(p.ratios) {
        assert(r[dl] == e[0]);
    }
    if typed(p.atleast) {
        assert(r[el] == f[0]);
    }
    if typed(p.seed) {
        assert(r[gl] == h[0]);
    }
    if typed(p.api_key) {
        assert(r[hl] == k[0]);
    }
    lemma_query_absent(p);
}

proof fn lemma_query_absent(p: WallhavenSearchParams)
    ensures
        !typed(p.q) ==> !has_name(search_query_of(p), "q"@),
        !typed(p.top_range) ==> !has_name(search_query_of(p), "topRange"@),
        !typed(p.colors) ==> !has_name(search_query_of(p), "colors"@),
        !typed(p.ratios) ==> !has_name(search_query_of(p), "ratios"@),
        !typed(p.atleast) ==> !has_name(search_query_of(p), "atleast"@),
        !typed(p.seed) ==> !has_name(search_query_of(p), "seed"@),
        !typed(p.api_key) ==> !has_name(search_query_of(p), "apikey"@),
{
    reveal_strlit("q");
    reveal_strlit("categories");
    reveal_strlit("purity");
    reveal_strlit("sorting");
    reveal_strlit("order");
    reveal_strlit("topRange");
    reveal_strlit("colors");
    reveal_strlit("ratios");
    reveal_strlit("atleast");
    reveal_strlit("page");
    reveal_strlit("seed");
    reveal_strlit("apikey");
    let names = seq![
        "q"@, "categories"@, "purity"@, "sorting"@, "order"@, "page"@, "topRange"@, "colors"@, "ratios"@,
        "atleast"@, "seed"@, "apikey"@,
    ];
    assert forall|i: int, j: int| 0 <= i < j < 12 implies names[i] != names[j] by {
        if names[i].len() == names[j].len() {
            if names[i].len() == 6 {
                assert(names[i][0] != names[j][0]);
            } else if names[i].len() == 7 {
                assert(names[i][0] != names[j][0]);
            } else if names[i].len() == 4 {
                assert(names[i][0] != names[j][0]);
            }
        }
    }
    assert(names[0] == "q"@ && names[1] == "categories"@ && names[2] == "purity"@ && names[3] == "sorting"@);
    assert(names[4] == "order"@ && names[5] == "page"@ && names[6] == "topRange"@ && names[7] == "colors"@);
    assert(names[8] == "ratios"@ && names[9] == "atleast"@ && names[10] == "seed"@ && names[11] == "apikey"@);
    lemma_query_names(p, "q"@);
    lemma_query_names(p, "topRange"@);
    lemma_query_names(p, "colors"@);
    lemma_query_names(p, "ratios"@);
    lemma_query_names(p, "atleast"@);
    lemma_query_names(p, "seed"@);
    lemma_query_names(p, "apikey"@);
}

} // verus!
