//! The wallpaper library: its sources, the records of wallpapers that came
//! from an online provider, and the folders that downloads and applied
//! wallpapers go to.
//!
//! What the file system or an image decoder answers (whether a path is a
//! folder, what it canonicalizes to, whether a file is an image) reaches these
//! functions as arguments; the decisions on them are made here.
use vstd::prelude::*;
use crate::context::opt_view;
use crate::path;
use crate::text;

verus! {

#[derive(Clone, Copy, Debug, PartialEq, Eq, Structural)]
pub enum SourceKind {
    UserFolder,
    MatugenDownloads,
    DownloadArchive,
    KdeUser,
    KdeSystem,
    SystemBackgrounds,
    CurrentWallpaper,
}

/// A folder that the library scans for wallpapers.
#[derive(Clone, Debug)]
pub struct WallpaperSource {
    pub id: String,
    pub kind: SourceKind,
    pub path: String,
    pub enabled: bool,
    pub recursive: bool,
    pub removable: bool,
    pub display_name: String,
}

/// Where a provider's wallpaper is kept: in the cache, as the applied
/// wallpaper, or saved to the downloads.
#[derive(Clone, Debug)]
pub struct ProviderRecord {
    pub provider: String,
    pub provider_id: String,
    pub cache_path: Option<String>,
    pub active_path: Option<String>,
    pub saved_path: Option<String>,
    pub thumb: Option<String>,
    pub last_used_at: Option<u64>,
    pub saved_at: Option<u64>,
    pub hidden_from_history: bool,
}

/// A provider record as values.
pub struct RecordView {
    pub provider: Seq<char>,
    pub provider_id: Seq<char>,
    pub cache_path: Option<Seq<char>>,
    pub active_path: Option<Seq<char>>,
    pub saved_path: Option<Seq<char>>,
    pub thumb: Option<Seq<char>>,
    pub last_used_at: Option<u64>,
    pub saved_at: Option<u64>,
    pub hidden_from_history: bool,
}

impl View for ProviderRecord {
    type V = RecordView;

    open spec fn view(&self) -> RecordView {
        RecordView {
            provider: self.provider@,
            provider_id: self.provider_id@,
            cache_path: opt_view(self.cache_path),
            active_path: opt_view(self.active_path),
            saved_path: opt_view(self.saved_path),
            thumb: opt_view(self.thumb),
            last_used_at: self.last_used_at,
            saved_at: self.saved_at,
            hidden_from_history: self.hidden_from_history,
        }
    }
}

/// A new record for a provider's wallpaper: nothing kept yet.
pub open spec fn default_record(provider: Seq<char>, id: Seq<char>) -> RecordView {
    RecordView {
        provider,
        provider_id: id,
        cache_path: None,
        active_path: None,
        saved_path: None,
        thumb: None,
        last_used_at: None,
        saved_at: None,
        hidden_from_history: false,
    }
}

impl Default for ProviderRecord {
    fn default() -> (r: Self)
        ensures
            r@ == default_record(Seq::empty(), Seq::empty()),
    {
        ProviderRecord {
            provider: String::new(),
            provider_id: String::new(),
            cache_path: None,
            active_path: None,
            saved_path: None,
            thumb: None,
            last_used_at: None,
            saved_at: None,
            hidden_from_history: false,
        }
    }
}

/// The library as persisted. Its provider records are kept in ascending key
/// order, each key once.
#[derive(Clone, Debug)]
pub struct WallpaperLibrary {
    pub download_root: String,
    pub sources: Vec<WallpaperSource>,
    pub provider_records: Vec<(String, ProviderRecord)>,
    pub legacy_folders_migrated: bool,
    pub legacy_history_migrated: bool,
}

/// A wallpaper found by a scan.
#[derive(Clone, Debug)]
pub struct WallpaperItem {
    pub path: String,
    pub file_name: String,
    pub source_id: String,
    pub source_kind: SourceKind,
    pub provider: Option<String>,
    pub provider_id: Option<String>,
}

#[derive(Clone, Debug)]
pub struct SourceScanError {
    pub source_id: String,
    pub message: String,
}

#[derive(Clone, Debug)]
pub struct ScanResult {
    pub items: Vec<WallpaperItem>,
    pub errors: Vec<SourceScanError>,
}

/// A download kept by earlier versions, before the library existed.
#[derive(Clone, Debug)]
pub struct LegacyHistoryEntry {
    pub id: String,
    pub local_path: String,
    pub thumb: Option<String>,
    pub downloaded_at: Option<u64>,
}

// ── Keys in order ────────────────────────────────────────────────────────────

/// The order of `String` keys: lexicographic by code point, as the UTF-8
/// bytes order them.
pub open spec fn text_lt(a: Seq<char>, b: Seq<char>) -> bool
    decreases a.len(),
{
    if a.len() == 0 {
        b.len() > 0
    } else if b.len() == 0 {
        false
    } else if a[0] != b[0] {
        (a[0] as u32) < (b[0] as u32)
    } else {
        text_lt(a.drop_first(), b.drop_first())
    }
}

pub proof fn lemma_text_lt_irreflexive(a: Seq<char>)
    ensures
        !text_lt(a, a),
    decreases a.len(),
{
    if a.len() > 0 {
        lemma_text_lt_irreflexive(a.drop_first());
    }
}

pub proof fn lemma_text_lt_transitive(a: Seq<char>, b: Seq<char>, c: Seq<char>)
    requires
        text_lt(a, b),
        text_lt(b, c),
    ensures
        text_lt(a, c),
    decreases a.len(),
{
    if a.len() > 0 && b.len() > 0 && c.len() > 0 && a[0] == b[0] && b[0] == c[0] {
        lemma_text_lt_transitive(a.drop_first(), b.drop_first(), c.drop_first());
    }
}

pub proof fn lemma_text_lt_total(a: Seq<char>, b: Seq<char>)
    ensures
        a == b || text_lt(a, b) || text_lt(b, a),
    decreases a.len(),
{
    if a.len() > 0 && b.len() > 0 {
        if a[0] == b[0] {
            lemma_text_lt_total(a.drop_first(), b.drop_first());
            if a.drop_first() == b.drop_first() {
                assert(a =~= seq![a[0]] + a.drop_first());
                assert(b =~= seq![b[0]] + b.drop_first());
            }
        } else if (a[0] as u32) == (b[0] as u32) {
            vstd::utf8::char_u32_cast(a[0], a[0] as u32);
            vstd::utf8::char_u32_cast(b[0], b[0] as u32);
        }
    } else if a.len() == 0 && b.len() == 0 {
        assert(a =~= b);
    }
}

pub proof fn lemma_text_lt_asymmetric(a: Seq<char>, b: Seq<char>)
    requires
        text_lt(a, b),
    ensures
        !text_lt(b, a),
    decreases a.len(),
{
    if a.len() > 0 && b.len() > 0 && a[0] == b[0] {
        lemma_text_lt_asymmetric(a.drop_first(), b.drop_first());
    }
}

pub fn text_lt_exec(a: &[char], b: &[char]) -> (r: bool)
    ensures
        r == text_lt(a@, b@),
{
    let mut i: usize = 0;
    assert(a@.skip(0) =~= a@);
    assert(b@.skip(0) =~= b@);
    while i < a.len() && i < b.len() && a[i] == b[i]
        invariant
            i <= a.len(),
            i <= b.len(),
            text_lt(a@, b@) == text_lt(a@.skip(i as int), b@.skip(i as int)),
        decreases a.len() - i,
    {
        assert(a@.skip(i as int).drop_first() =~= a@.skip(i + 1));
        assert(b@.skip(i as int).drop_first() =~= b@.skip(i + 1));
        i = i + 1;
    }
    if i == a.len() {
        i < b.len()
    } else if i == b.len() {
        false
    } else {
        (a[i] as u32) < (b[i] as u32)
    }
}

// ── Provider records as a map ────────────────────────────────────────────────

pub open spec fn keys_sorted(rs: Seq<(String, ProviderRecord)>) -> bool {
    forall|i: int, j: int| 0 <= i < j < rs.len() ==> text_lt(#[trigger] rs[i].0@, #[trigger] rs[j].0@)
}

/// The records by key.
pub open spec fn records_map(rs: Seq<(String, ProviderRecord)>) -> Map<Seq<char>, RecordView>
    decreases rs.len(),
{
    if rs.len() == 0 {
        Map::empty()
    } else {
        records_map(rs.drop_last()).insert(rs.last().0@, rs.last().1@)
    }
}

impl WallpaperLibrary {
    /// The records are in ascending key order.
    pub open spec fn wf(&self) -> bool {
        keys_sorted(self.provider_records@)
    }

    pub open spec fn records(&self) -> Map<Seq<char>, RecordView> {
        records_map(self.provider_records@)
    }
}

proof fn lemma_sorted_drop_last(rs: Seq<(String, ProviderRecord)>)
    requires
        keys_sorted(rs),
        rs.len() > 0,
    ensures
        keys_sorted(rs.drop_last()),
{
    let d = rs.drop_last();
    assert forall|i: int, j: int| 0 <= i < j < d.len() implies text_lt(#[trigger] d[i].0@, #[trigger] d[j].0@) by {
        assert(d[i] == rs[i] && d[j] == rs[j]);
    }
}

/// A key is in the map exactly when some record has it.
pub proof fn lemma_records_dom(rs: Seq<(String, ProviderRecord)>, k: Seq<char>)
    ensures
        records_map(rs).dom().contains(k) <==> exists|i: int| 0 <= i < rs.len() && #[trigger] rs[i].0@ == k,
    decreases rs.len(),
{
    if rs.len() > 0 {
        lemma_records_dom(rs.drop_last(), k);
        if records_map(rs).dom().contains(k) {
            if k != rs.last().0@ {
                let i = choose|i: int| 0 <= i < rs.drop_last().len() && #[trigger] rs.drop_last()[i].0@ == k;
                assert(rs[i].0@ == k);
            } else {
                assert(rs[rs.len() - 1].0@ == k);
            }
        }
        if exists|i: int| 0 <= i < rs.len() && #[trigger] rs[i].0@ == k {
            let i = choose|i: int| 0 <= i < rs.len() && #[trigger] rs[i].0@ == k;
            if i < rs.len() - 1 {
                assert(rs.drop_last()[i].0@ == k);
            }
        }
    }
}

/// Each record is what the map holds under its key.
pub proof fn lemma_records_get(rs: Seq<(String, ProviderRecord)>, i: int)
    requires
        keys_sorted(rs),
        0 <= i < rs.len(),
    ensures
        records_map(rs).dom().contains(rs[i].0@),
        records_map(rs)[rs[i].0@] == rs[i].1@,
    decreases rs.len(),
{
    if i < rs.len() - 1 {
        lemma_sorted_drop_last(rs);
        lemma_records_get(rs.drop_last(), i);
        assert(rs.drop_last()[i] == rs[i]);
        assert(text_lt(rs[i].0@, rs[rs.len() - 1].0@));
        lemma_text_lt_irreflexive(rs[i].0@);
    }
}

/// Replacing a record by one with the same key replaces it in the map.
pub proof fn lemma_records_update(rs: Seq<(String, ProviderRecord)>, i: int, e: (String, ProviderRecord))
    requires
        keys_sorted(rs),
        0 <= i < rs.len(),
        e.0@ == rs[i].0@,
    ensures
        keys_sorted(rs.update(i, e)),
        records_map(rs.update(i, e)) == records_map(rs).insert(e.0@, e.1@),
    decreases rs.len(),
{
    let u = rs.update(i, e);
    assert forall|a: int, b: int| 0 <= a < b < u.len() implies text_lt(#[trigger] u[a].0@, #[trigger] u[b].0@) by {
        assert(u[a].0@ == rs[a].0@ && u[b].0@ == rs[b].0@);
    }
    if i == rs.len() - 1 {
        assert(u.drop_last() =~= rs.drop_last());
        assert(records_map(u) =~= records_map(rs).insert(e.0@, e.1@));
    } else {
        lemma_sorted_drop_last(rs);
        lemma_records_update(rs.drop_last(), i, e);
        assert(u.drop_last() =~= rs.drop_last().update(i, e));
        assert(u.last() == rs.last());
        assert(text_lt(rs[i].0@, rs[rs.len() - 1].0@));
        lemma_text_lt_irreflexive(rs[i].0@);
        assert(records_map(u) =~= records_map(rs).insert(e.0@, e.1@));
    }
}

/// Inserting a record at its place in the order adds it to the map.
pub proof fn lemma_records_insert(rs: Seq<(String, ProviderRecord)>, k: int, e: (String, ProviderRecord))
    requires
        keys_sorted(rs),
        0 <= k <= rs.len(),
        forall|i: int| 0 <= i < k ==> text_lt(#[trigger] rs[i].0@, e.0@),
        forall|i: int| k <= i < rs.len() ==> text_lt(e.0@, #[trigger] rs[i].0@),
    ensures
        keys_sorted(rs.insert(k, e)),
        records_map(rs.insert(k, e)) == records_map(rs).insert(e.0@, e.1@),
    decreases rs.len(),
{
    let u = rs.insert(k, e);
    assert forall|a: int, b: int| 0 <= a < b < u.len() implies text_lt(#[trigger] u[a].0@, #[trigger] u[b].0@) by {
        if b < k {
            assert(u[a] == rs[a] && u[b] == rs[b]);
        } else if b == k {
            assert(u[a] == rs[a] && u[b] == e);
        } else if a < k {
            assert(u[a] == rs[a] && u[b] == rs[b - 1]);
        } else if a == k {
            assert(u[a] == e && u[b] == rs[b - 1]);
        } else {
            assert(u[a] == rs[a - 1] && u[b] == rs[b - 1]);
        }
    }
    if k == rs.len() {
        assert(u.drop_last() =~= rs);
        assert(u.last() == e);
    } else {
        lemma_sorted_drop_last(rs);
        lemma_records_insert(rs.drop_last(), k, e);
        assert(u.drop_last() =~= rs.drop_last().insert(k, e));
        assert(u.last() == rs.last());
        assert(text_lt(e.0@, rs[rs.len() - 1].0@));
        lemma_text_lt_irreflexive(e.0@);
        assert(records_map(u) =~= records_map(rs).insert(e.0@, e.1@));
    }
}

/// The position of the record with key `key`.
pub fn find_record(rs: &Vec<(String, ProviderRecord)>, key: &[char]) -> (r: Option<usize>)
    ensures
        r matches Some(i) ==> i < rs.len() && rs@[i as int].0@ == key@,
        r is None ==> forall|i: int| 0 <= i < rs.len() ==> #[trigger] rs@[i].0@ != key@,
{
    let mut i: usize = 0;
    while i < rs.len()
        invariant
            i <= rs.len(),
            forall|j: int| 0 <= j < i ==> #[trigger] rs@[j].0@ != key@,
        decreases rs.len() - i,
    {
        let kv = text::chars_of(rs[i].0.as_str());
        if text::seq_eq(&kv, key) {
            return Some(i);
        }
        i = i + 1;
    }
    None
}

/// `BTreeMap::entry(key).or_insert(default)`: the position of the record with
/// `key`, inserted in order with the default where there was none.
fn entry_index(rs: &mut Vec<(String, ProviderRecord)>, key: String, default: ProviderRecord) -> (r:
    usize)
    requires
        keys_sorted(old(rs)@),
    ensures
        keys_sorted(final(rs)@),
        r < final(rs).len(),
        final(rs)@[r as int].0@ == key@,
        records_map(old(rs)@).dom().contains(key@) ==> records_map(final(rs)@) == records_map(
            old(rs)@,
        ),
        !records_map(old(rs)@).dom().contains(key@) ==> records_map(final(rs)@) == records_map(
            old(rs)@,
        ).insert(key@, default@),
{
    let kv = text::chars_of(key.as_str());
    let mut i: usize = 0;
    while i < rs.len()
        invariant
            i <= rs.len(),
            kv@ == key@,
            keys_sorted(rs@),
            forall|j: int| 0 <= j < i ==> text_lt(#[trigger] rs@[j].0@, key@),
        ensures
            i <= rs.len(),
            forall|j: int| 0 <= j < i ==> text_lt(#[trigger] rs@[j].0@, key@),
            i < rs.len() ==> !text_lt(rs@[i as int].0@, key@),
        decreases rs.len() - i,
    {
        let ki = text::chars_of(rs[i].0.as_str());
        if !text_lt_exec(&ki, &kv) {
            break;
        }
        i = i + 1;
    }
    proof {
        lemma_records_dom(rs@, key@);
    }
    if i < rs.len() {
        let ki = text::chars_of(rs[i].0.as_str());
        if text::seq_eq(&ki, &kv) {
            return i;
        }
        proof {
            lemma_text_lt_total(rs@[i as int].0@, key@);
            assert forall|j: int| i <= j < rs.len() implies text_lt(key@, #[trigger] rs@[j].0@) by {
                if j > i {
                    lemma_text_lt_transitive(key@, rs@[i as int].0@, rs@[j].0@);
                }
            }
            assert forall|j: int| 0 <= j < rs.len() implies #[trigger] rs@[j].0@ != key@ by {
                if j < i {
                    lemma_text_lt_irreflexive(key@);
                } else {
                    lemma_text_lt_irreflexive(key@);
                }
            }
        }
    } else {
        proof {
            assert forall|j: int| 0 <= j < rs.len() implies #[trigger] rs@[j].0@ != key@ by {
                lemma_text_lt_irreflexive(key@);
            }
        }
    }
    let ghost before = rs@;
    proof {
        lemma_records_insert(before, i as int, (key, default));
    }
    rs.insert(i, (key, default));
    i
}


// ── Names and folders ────────────────────────────────────────────────────────

pub open spec fn segment_char(c: char) -> bool {
    text::is_ascii_alnum(c) || c == '-' || c == '_'
}

/// A provider name or wallpaper id that may stand in a file name: 1 to 80
/// ASCII letters, digits, `-` or `_`. (All such characters are one byte, so
/// the byte count and the character count agree.)
pub open spec fn safe_segment_of(v: Seq<char>) -> bool {
    &&& v.len() > 0
    &&& v.len() <= 80
    &&& forall|i: int| 0 <= i < v.len() ==> segment_char(#[trigger] v[i])
}

pub fn safe_segment(value: &str) -> (r: bool)
    ensures
        r == safe_segment_of(value@),
{
    let v = text::chars_of(value);
    if v.len() == 0 || v.len() > 80 {
        return false;
    }
    let mut i: usize = 0;
    while i < v.len()
        invariant
            i <= v.len(),
            v@ == value@,
            forall|j: int| 0 <= j < i ==> segment_char(#[trigger] v@[j]),
        decreases v.len() - i,
    {
        let c = v[i];
        if !(('a' <= c && c <= 'z') || ('A' <= c && c <= 'Z') || ('0' <= c && c <= '9') || c == '-'
            || c == '_') {
            return false;
        }
        i = i + 1;
    }
    true
}

pub open spec fn record_key_of(provider: Seq<char>, id: Seq<char>) -> Seq<char> {
    provider + seq![':'] + id
}

/// `provider:id`, the key of a provider record.
pub fn record_key(provider: &str, id: &str) -> (r: String)
    ensures
        r@ == record_key_of(provider@, id@),
{
    let mut out: Vec<char> = text::chars_of(provider);
    out.push(':');
    text::push_str(&mut out, id);
    assert(out@ =~= record_key_of(provider@, id@));
    text::string_of(&out)
}

/// The folder name of a provider under the download root.
pub open spec fn provider_folder(provider: Seq<char>) -> Seq<char> {
    if provider == "wallhaven"@ {
        "Wallhaven"@
    } else {
        provider
    }
}

pub open spec fn provider_dir_of(root: Seq<char>, provider: Seq<char>) -> Result<Seq<char>, Seq<char>> {
    if safe_segment_of(provider) {
        Ok(path::join(root, provider_folder(provider)))
    } else {
        Err("Invalid provider"@)
    }
}

/// `provider_dir`: the provider's folder under `root`.
pub fn provider_dir(root: &str, provider: &str) -> (r: Result<String, String>)
    ensures
        r matches Ok(p) ==> provider_dir_of(root@, provider@) == Ok::<Seq<char>, Seq<char>>(p@),
        r matches Err(e) ==> provider_dir_of(root@, provider@) == Err::<Seq<char>, Seq<char>>(e@),
{
    if !safe_segment(provider) {
        return Err(String::from_str("Invalid provider"));
    }
    if crate::context::str_eq(provider, "wallhaven") {
        Ok(path::join_exec(root, "Wallhaven"))
    } else {
        Ok(path::join_exec(root, provider))
    }
}

pub open spec fn download_root_of(pictures: Seq<char>) -> Seq<char> {
    path::join(pictures, "Wallpapers/Matugen Studio"@)
}

pub fn download_root_for(pictures: &str) -> (r: String)
    ensures
        r@ == download_root_of(pictures@),
{
    path::join_exec(pictures, "Wallpapers/Matugen Studio")
}

pub open spec fn active_root_of(data_dir: Seq<char>) -> Seq<char> {
    path::join(data_dir, "matugen-studio/active-wallpapers"@)
}

/// The folder of applied provider wallpapers under the XDG data folder.
pub fn active_root_for(data_dir: &str) -> (r: String)
    ensures
        r@ == active_root_of(data_dir@),
{
    path::join_exec(data_dir, "matugen-studio/active-wallpapers")
}

/// The pictures folder, else the data folder, else `~/.local/share` (with
/// `/tmp` for a missing home).
pub open spec fn pictures_dir_of(
    pictures: Option<Seq<char>>,
    data: Option<Seq<char>>,
    home: Option<Seq<char>>,
) -> Seq<char> {
    match pictures {
        Some(p) => p,
        None => match data {
            Some(d) => d,
            None => path::join(
                match home {
                    Some(h) => h,
                    None => "/tmp"@,
                },
                ".local/share"@,
            ),
        },
    }
}

pub fn pictures_dir_from(pictures: Option<String>, data: Option<String>, home: Option<String>) -> (r:
    String)
    ensures
        r@ == pictures_dir_of(opt_view(pictures), opt_view(data), opt_view(home)),
{
    match pictures {
        Some(p) => p,
        None => match data {
            Some(d) => d,
            None => match home {
                Some(h) => path::join_exec(h.as_str(), ".local/share"),
                None => path::join_exec("/tmp", ".local/share"),
            },
        },
    }
}

/// `pictures_dir`, from the folders that the environment gives.
pub fn pictures_dir() -> (r: String)
    ensures
        exists|p: Option<Seq<char>>, d: Option<Seq<char>>, h: Option<Seq<char>>|
            r@ == pictures_dir_of(p, d, h),
{
    let p = crate::xdg::picture_dir();
    let d = if p.is_some() {
        None
    } else {
        crate::xdg::data_dir()
    };
    let h = if p.is_some() || d.is_some() {
        None
    } else {
        crate::xdg::home_dir()
    };
    let ghost (pv, dv, hv) = (opt_view(p), opt_view(d), opt_view(h));
    let r = pictures_dir_from(p, d, h);
    assert(r@ == pictures_dir_of(pv, dv, hv));
    r
}

/// `default_download_root`: `Wallpapers/Matugen Studio` under the pictures folder.
pub fn default_download_root() -> (r: String)
    ensures
        exists|p: Option<Seq<char>>, d: Option<Seq<char>>, h: Option<Seq<char>>|
            r@ == download_root_of(#[trigger] pictures_dir_of(p, d, h)),
{
    let pictures = pictures_dir();
    download_root_for(pictures.as_str())
}

/// `managed_active_root`: the applied-wallpaper folder under the XDG data folder.
pub fn managed_active_root() -> (r: Result<String, String>)
    ensures
        r matches Ok(p) ==> exists|d: Seq<char>| p@ == active_root_of(d),
        r matches Err(e) ==> e@ == "XDG data directory unavailable"@,
{
    match crate::xdg::data_dir() {
        Some(d) => Ok(active_root_for(d.as_str())),
        None => Err(String::from_str("XDG data directory unavailable")),
    }
}

/// `provider_cache_dir`: the provider's folder in the application cache.
pub fn provider_cache_dir(provider: &str) -> (r: Result<String, String>)
    ensures
        !safe_segment_of(provider@) ==> (r matches Err(e) && e@ == "Invalid provider"@),
        r matches Ok(p) ==> (safe_segment_of(provider@) && exists|c: Seq<char>|
            p@ == path::join(path::join(c, "matugen-studio"@), provider@)),
        safe_segment_of(provider@) ==> (r matches Err(e) ==> e@ == "XDG cache unavailable"@),
{
    if !safe_segment(provider) {
        return Err(String::from_str("Invalid provider"));
    }
    match crate::xdg::cache_dir() {
        Some(c) => {
            let app = path::join_exec(c.as_str(), "matugen-studio");
            Ok(path::join_exec(app.as_str(), provider))
        },
        None => Err(String::from_str("XDG cache unavailable")),
    }
}

pub open spec fn image_extension(e: Seq<char>) -> bool {
    e == "jpg"@ || e == "jpeg"@ || e == "png"@ || e == "webp"@
}

/// `supported_ext`: the extension, in lower case, is one the library shows.
pub open spec fn supported_ext_of(p: Seq<char>) -> bool {
    match path::extension(p) {
        Some(e) => image_extension(text::lower(e)),
        None => false,
    }
}

pub fn supported_ext(path: &str) -> (r: bool)
    ensures
        r == supported_ext_of(path@),
{
    match path::extension_exec(path) {
        Some(e) => {
            let l = text::lower_exec(&text::chars_of(e.as_str()));
            text::eq_str(&l, "jpg") || text::eq_str(&l, "jpeg") || text::eq_str(&l, "png")
                || text::eq_str(&l, "webp")
        },
        None => false,
    }
}

/// Whether a file is shown depends on its extension alone and ignores ASCII
/// case: two paths whose extensions agree in lower case are both shown or
/// both left out.
pub proof fn lemma_supported_ext_ignores_case(p: Seq<char>, q: Seq<char>)
    requires
        path::extension(p) is Some,
        path::extension(q) is Some,
        text::lower(path::extension(p)->0) == text::lower(path::extension(q)->0),
    ensures
        supported_ext_of(p) == supported_ext_of(q),
{
}

/// A file is shown exactly when it has an extension that, in ASCII lower
/// case, is `jpg`, `jpeg`, `png` or `webp`.
pub proof fn lemma_supported_ext_names(p: Seq<char>)
    ensures
        supported_ext_of(p) <==> (path::extension(p) matches Some(e) && {
            let l = text::lower(e);
            l == "jpg"@ || l == "jpeg"@ || l == "png"@ || l == "webp"@
        }),
{
}

// ── Provider records ─────────────────────────────────────────────────────────

/// Where a provider wallpaper can be read from.
#[derive(Debug)]
pub struct ProviderPaths {
    pub cache: Option<String>,
    pub active: Option<String>,
    pub saved: Option<String>,
}

impl Default for ProviderPaths {
    fn default() -> (r: Self)
        ensures
            r.cache is None && r.active is None && r.saved is None,
    {
        ProviderPaths { cache: None, active: None, saved: None }
    }
}

pub open spec fn opt_str(o: Option<&str>) -> Option<Seq<char>> {
    match o {
        Some(s) => Some(s@),
        None => None,
    }
}

fn as_deref(o: &Option<String>) -> (r: Option<&str>)
    ensures
        opt_str(r) == opt_view(*o),
{
    match o {
        Some(s) => Some(s.as_str()),
        None => None,
    }
}

impl ProviderPaths {
    /// The file to read colors from: the saved copy, else the cached one.
    pub fn for_colors(&self) -> (r: Option<&str>)
        ensures
            opt_str(r) == (if self.saved is Some {
                opt_view(self.saved)
            } else {
                opt_view(self.cache)
            }),
    {
        match as_deref(&self.saved) {
            Some(s) => Some(s),
            None => as_deref(&self.cache),
        }
    }

    /// The file to hand to KDE: the saved copy, else the applied one; never a
    /// path that only the cache holds.
    pub fn for_apply(&self) -> (r: Option<&str>)
        ensures
            opt_str(r) == (if self.saved is Some {
                opt_view(self.saved)
            } else {
                opt_view(self.active)
            }),
            r matches Some(p) ==> opt_view(self.saved) == Some(p@) || opt_view(self.active) == Some(
                p@,
            ),
    {
        match as_deref(&self.saved) {
            Some(s) => Some(s),
            None => as_deref(&self.active),
        }
    }
}

fn clone_opt(o: &Option<String>) -> (r: Option<String>)
    ensures
        r == *o,
{
    match o {
        Some(s) => Some(s.clone()),
        None => None,
    }
}

/// `provider_paths` on the loaded library: the paths of the record for
/// `provider:id`, or none where there is no record.
pub fn provider_paths(data: &WallpaperLibrary, provider: &str, id: &str) -> (r: Result<
    ProviderPaths,
    String,
>)
    requires
        data.wf(),
    ensures
        r is Err <==> !(safe_segment_of(provider@) && safe_segment_of(id@)),
        r matches Err(e) ==> e@ == "Invalid provider identity"@,
        r matches Ok(p) ==> {
            let k = record_key_of(provider@, id@);
            if data.records().dom().contains(k) {
                &&& opt_view(p.cache) == data.records()[k].cache_path
                &&& opt_view(p.active) == data.records()[k].active_path
                &&& opt_view(p.saved) == data.records()[k].saved_path
            } else {
                p.cache is None && p.active is None && p.saved is None
            }
        },
{
    if !safe_segment(provider) || !safe_segment(id) {
        return Err(String::from_str("Invalid provider identity"));
    }
    let key = record_key(provider, id);
    let kv = text::chars_of(key.as_str());
    proof {
        lemma_records_dom(data.provider_records@, key@);
    }
    match find_record(&data.provider_records, &kv) {
        Some(i) => {
            proof {
                lemma_records_get(data.provider_records@, i as int);
            }
            let rec = &data.provider_records[i].1;
            Ok(
                ProviderPaths {
                    cache: clone_opt(&rec.cache_path),
                    active: clone_opt(&rec.active_path),
                    saved: clone_opt(&rec.saved_path),
                },
            )
        },
        None => Ok(ProviderPaths::default()),
    }
}

/// A record after a provider wallpaper was stored: saved to the downloads
/// (with the time) or put in the cache, its thumbnail replaced where one is
/// given, used now and shown in the history again.
pub open spec fn after_provider_path(
    r: RecordView,
    path: Seq<char>,
    saved: bool,
    thumb: Option<Seq<char>>,
    saved_at: u64,
    used_at: u64,
) -> RecordView {
    let r1 = if saved {
        RecordView { saved_path: Some(path), saved_at: Some(saved_at), ..r }
    } else {
        RecordView { cache_path: Some(path), ..r }
    };
    let r2 = if thumb is Some {
        RecordView { thumb: thumb, ..r1 }
    } else {
        r1
    };
    RecordView { last_used_at: Some(used_at), hidden_from_history: false, ..r2 }
}

/// A record after a wallpaper was applied from the managed folder.
pub open spec fn after_active_path(
    r: RecordView,
    path: Seq<char>,
    thumb: Option<Seq<char>>,
    used_at: u64,
) -> RecordView {
    let r1 = RecordView { active_path: Some(path), last_used_at: Some(used_at), hidden_from_history: false, ..r };
    if thumb is Some {
        RecordView { thumb: thumb, ..r1 }
    } else {
        r1
    }
}

/// The record under `key`, or a new one for `provider` and `id`.
pub open spec fn record_or_new(
    m: Map<Seq<char>, RecordView>,
    key: Seq<char>,
    provider: Seq<char>,
    id: Seq<char>,
) -> RecordView {
    if m.dom().contains(key) {
        m[key]
    } else {
        default_record(provider, id)
    }
}

/// Everything but the provider records is as it was.
pub open spec fn same_but_records(a: WallpaperLibrary, b: WallpaperLibrary) -> bool {
    &&& a.download_root == b.download_root
    &&& a.sources == b.sources
    &&& a.legacy_folders_migrated == b.legacy_folders_migrated
    &&& a.legacy_history_migrated == b.legacy_history_migrated
}

fn new_record(provider: &str, id: &str) -> (r: ProviderRecord)
    ensures
        r@ == default_record(provider@, id@),
{
    ProviderRecord {
        provider: String::from_str(provider),
        provider_id: String::from_str(id),
        cache_path: None,
        active_path: None,
        saved_path: None,
        thumb: None,
        last_used_at: None,
        saved_at: None,
        hidden_from_history: false,
    }
}

/// Takes the record with `key` out (inserting a new one first where there is
/// none), for the caller to put back changed at the same position.
fn take_record(data: &mut WallpaperLibrary, provider: &str, id: &str) -> (r: (usize, String, ProviderRecord))
    requires
        old(data).wf(),
    ensures
        r.0 <= final(data).provider_records.len(),
        r.1@ == record_key_of(provider@, id@),
        r.2@ == record_or_new(old(data).records(), record_key_of(provider@, id@), provider@, id@),
        same_but_records(*final(data), *old(data)),
        keys_sorted(final(data).provider_records@.insert(r.0 as int, (r.1, r.2))),
        records_map(final(data).provider_records@.insert(r.0 as int, (r.1, r.2))) == old(data).records().insert(r.1@, r.2@),
{
    let key = record_key(provider, id);
    let ghost m0 = data.records();
    let idx = entry_index(&mut data.provider_records, key, new_record(provider, id));
    proof {
        lemma_records_get(data.provider_records@, idx as int);
    }
    let ghost mid = data.provider_records@;
    let (key2, rec) = data.provider_records.remove(idx);
    proof {
        assert(data.provider_records@.insert(idx as int, (key2, rec)) =~= mid);
        assert(records_map(mid) =~= m0.insert(key2@, rec@));
    }
    (idx, key2, rec)
}

/// Putting a changed record back where it was taken from.
proof fn lemma_put_back(
    rest: Seq<(String, ProviderRecord)>,
    idx: int,
    before: (String, ProviderRecord),
    after: (String, ProviderRecord),
)
    requires
        0 <= idx <= rest.len(),
        keys_sorted(rest.insert(idx, before)),
        before.0@ == after.0@,
    ensures
        keys_sorted(rest.insert(idx, after)),
        records_map(rest.insert(idx, after)) == records_map(rest.insert(idx, before)).insert(
            after.0@,
            after.1@,
        ),
{
    lemma_records_update(rest.insert(idx, before), idx, after);
    assert(rest.insert(idx, after) =~= rest.insert(idx, before).update(idx, after));
}

/// `record_provider_path` on the loaded library. `path_is_image` is whether
/// the file is a regular file that decodes as an image; `saved_at` and
/// `used_at` are the two clock readings, in milliseconds.
pub fn record_provider_path(
    data: &mut WallpaperLibrary,
    provider: &str,
    id: &str,
    path: &str,
    path_is_image: bool,
    saved: bool,
    thumb: Option<String>,
    saved_at: u64,
    used_at: u64,
) -> (r: Result<(), String>)
    requires
        old(data).wf(),
    ensures
        final(data).wf(),
        r is Err <==> !(safe_segment_of(provider@) && safe_segment_of(id@) && path_is_image),
        r matches Err(e) ==> (e@ == "Invalid provider wallpaper"@ && *final(data) == *old(data)),
        r is Ok ==> same_but_records(*final(data), *old(data)) && final(data).records() == old(data).records().insert(
            record_key_of(provider@, id@),
            after_provider_path(
                record_or_new(old(data).records(), record_key_of(provider@, id@), provider@, id@),
                path@,
                saved,
                opt_view(thumb),
                saved_at,
                used_at,
            ),
        ),
{
    if !safe_segment(provider) || !safe_segment(id) || !path_is_image {
        return Err(String::from_str("Invalid provider wallpaper"));
    }
    let ghost thumb_v = opt_view(thumb);
    let (idx, key, mut rec) = take_record(data, provider, id);
    let ghost rest = data.provider_records@;
    let ghost e0 = (key, rec);
    if saved {
        rec.saved_path = Some(String::from_str(path));
        rec.saved_at = Some(saved_at);
    } else {
        rec.cache_path = Some(String::from_str(path));
    }
    if thumb.is_some() {
        rec.thumb = thumb;
    }
    rec.last_used_at = Some(used_at);
    rec.hidden_from_history = false;
    proof {
        lemma_put_back(rest, idx as int, e0, (key, rec));
        assert(old(data).records().insert(key@, e0.1@).insert(key@, rec@) =~= old(data).records().insert(key@, rec@));
    }
    data.provider_records.insert(idx, (key, rec));
    assert(rec@ == after_provider_path(
        record_or_new(old(data).records(), record_key_of(provider@, id@), provider@, id@),
        path@,
        saved,
        thumb_v,
        saved_at,
        used_at,
    ));
    Ok(())
}

/// What is recorded is what is read back: after a wallpaper is recorded for
/// `provider:id`, its record holds the path, as the saved download (which
/// then serves both colors and KDE) or as the cached file (which serves
/// colors unless a download was saved); the applied copy is left as it was
/// and the wallpaper shows in the history again.
pub proof fn lemma_read_after_record(
    m: Map<Seq<char>, RecordView>,
    provider: Seq<char>,
    id: Seq<char>,
    path: Seq<char>,
    saved: bool,
    thumb: Option<Seq<char>>,
    saved_at: u64,
    used_at: u64,
)
    ensures
        ({
            let k = record_key_of(provider, id);
            let before = record_or_new(m, k, provider, id);
            let after = m.insert(k, after_provider_path(before, path, saved, thumb, saved_at, used_at));
            &&& after.dom().contains(k)
            &&& after[k].active_path == before.active_path
            &&& !after[k].hidden_from_history
            &&& saved ==> after[k].saved_path == Some(path) && after[k].cache_path == before.cache_path
            &&& !saved ==> after[k].cache_path == Some(path) && after[k].saved_path == before.saved_path
        }),
{
}

/// `record_managed_active_path` on the loaded library. `normalized_path` and
/// `normalized_active_root` are the canonical forms of the path and of
/// `managed_active_root()` (or its error).
pub fn record_managed_active_path(
    data: &mut WallpaperLibrary,
    provider: &str,
    id: &str,
    path: &str,
    path_is_image: bool,
    normalized_path: &str,
    normalized_active_root: Result<String, String>,
    thumb: Option<String>,
    used_at: u64,
) -> (r: Result<(), String>)
    requires
        old(data).wf(),
    ensures
        final(data).wf(),
        !(safe_segment_of(provider@) && safe_segment_of(id@) && path_is_image) ==> (r matches Err(
            e,
        ) && e@ == "Invalid managed wallpaper"@),
        (safe_segment_of(provider@) && safe_segment_of(id@) && path_is_image) ==> match normalized_active_root {
            Err(e) => r == Err::<(), String>(e),
            Ok(root) => (r is Ok <==> path::path_starts_with(normalized_path@, root@)) && (r matches Err(
                e,
            ) ==> e@ == "Invalid managed wallpaper"@),
        },
        r is Err ==> *final(data) == *old(data),
        r is Ok ==> same_but_records(*final(data), *old(data)) && final(data).records() == old(data).records().insert(
            record_key_of(provider@, id@),
            after_active_path(
                record_or_new(old(data).records(), record_key_of(provider@, id@), provider@, id@),
                path@,
                opt_view(thumb),
                used_at,
            ),
        ),
{
    if !safe_segment(provider) || !safe_segment(id) || !path_is_image {
        return Err(String::from_str("Invalid managed wallpaper"));
    }
    let root = match normalized_active_root {
        Ok(root) => root,
        Err(e) => {
            return Err(e);
        },
    };
    if !path::path_starts_with_exec(normalized_path, root.as_str()) {
        return Err(String::from_str("Invalid managed wallpaper"));
    }
    let ghost thumb_v = opt_view(thumb);
    let (idx, key, mut rec) = take_record(data, provider, id);
    let ghost rest = data.provider_records@;
    let ghost e0 = (key, rec);
    rec.active_path = Some(String::from_str(path));
    rec.last_used_at = Some(used_at);
    rec.hidden_from_history = false;
    if thumb.is_some() {
        rec.thumb = thumb;
    }
    proof {
        lemma_put_back(rest, idx as int, e0, (key, rec));
        assert(old(data).records().insert(key@, e0.1@).insert(key@, rec@) =~= old(data).records().insert(key@, rec@));
    }
    data.provider_records.insert(idx, (key, rec));
    assert(rec@ == after_active_path(
        record_or_new(old(data).records(), record_key_of(provider@, id@), provider@, id@),
        path@,
        thumb_v,
        used_at,
    ));
    Ok(())
}


// ── Sources ──────────────────────────────────────────────────────────────────

/// A source as values.
pub struct SourceView {
    pub id: Seq<char>,
    pub kind: SourceKind,
    pub path: Seq<char>,
    pub enabled: bool,
    pub recursive: bool,
    pub removable: bool,
    pub display_name: Seq<char>,
}

impl View for WallpaperSource {
    type V = SourceView;

    open spec fn view(&self) -> SourceView {
        SourceView {
            id: self.id@,
            kind: self.kind,
            path: self.path@,
            enabled: self.enabled,
            recursive: self.recursive,
            removable: self.removable,
            display_name: self.display_name@,
        }
    }
}

pub open spec fn sources_view(v: Seq<WallpaperSource>) -> Seq<SourceView> {
    v.map_values(|s: WallpaperSource| s@)
}

/// The name that `{:?}` gives a source kind.
pub open spec fn kind_name(kind: SourceKind) -> Seq<char> {
    match kind {
        SourceKind::UserFolder => "UserFolder"@,
        SourceKind::MatugenDownloads => "MatugenDownloads"@,
        SourceKind::DownloadArchive => "DownloadArchive"@,
        SourceKind::KdeUser => "KdeUser"@,
        SourceKind::KdeSystem => "KdeSystem"@,
        SourceKind::SystemBackgrounds => "SystemBackgrounds"@,
        SourceKind::CurrentWallpaper => "CurrentWallpaper"@,
    }
}

fn kind_name_exec(kind: SourceKind) -> (r: &'static str)
    ensures
        r@ == kind_name(kind),
{
    match kind {
        SourceKind::UserFolder => "UserFolder",
        SourceKind::MatugenDownloads => "MatugenDownloads",
        SourceKind::DownloadArchive => "DownloadArchive",
        SourceKind::KdeUser => "KdeUser",
        SourceKind::KdeSystem => "KdeSystem",
        SourceKind::SystemBackgrounds => "SystemBackgrounds",
        SourceKind::CurrentWallpaper => "CurrentWallpaper",
    }
}

/// The MD5 digest of the bytes, as the `md5` crate computes it.
pub uninterp spec fn md5_digest(data: Seq<u8>) -> Seq<u8>;

/// Calls `md5::compute`. Its digest is named by `md5_digest`; it is sixteen
/// bytes, the crate's `Digest` being a `[u8; 16]`.
#[verifier::external_body]
pub(crate) fn md5_of_bytes(data: &[u8]) -> (r: Vec<u8>)
    ensures
        r@ == md5_digest(data@),
        r@.len() == 16,
{
    md5::compute(data).0.to_vec()
}

pub open spec fn hex_digit_lower(d: nat) -> char {
    if d < 10 {
        text::digit_char(d)
    } else {
        (('a' as nat) + d - 10) as char
    }
}

/// The bytes in lower-case hexadecimal, two digits each.
pub open spec fn hex_lower(bytes: Seq<u8>) -> Seq<char>
    decreases bytes.len(),
{
    if bytes.len() == 0 {
        Seq::empty()
    } else {
        hex_lower(bytes.drop_last()) + seq![
            hex_digit_lower(bytes.last() as nat / 16),
            hex_digit_lower(bytes.last() as nat % 16),
        ]
    }
}

fn hex_digit_lower_exec(d: u8) -> (c: char)
    requires
        d < 16,
    ensures
        c == hex_digit_lower(d as nat),
{
    if d < 10 {
        (48u8 + d) as char
    } else {
        (97u8 + d - 10) as char
    }
}

pub(crate) fn push_hex_lower(out: &mut Vec<char>, bytes: &Vec<u8>)
    ensures
        final(out)@ == old(out)@ + hex_lower(bytes@),
{
    let mut i: usize = 0;
    while i < bytes.len()
        invariant
            i <= bytes.len(),
            out@ == old(out)@ + hex_lower(bytes@.take(i as int)),
        decreases bytes.len() - i,
    {
        assert(bytes@.take(i + 1).drop_last() =~= bytes@.take(i as int));
        out.push(hex_digit_lower_exec(bytes[i] / 16));
        out.push(hex_digit_lower_exec(bytes[i] % 16));
        i = i + 1;
        assert(out@ =~= old(out)@ + hex_lower(bytes@.take(i as int)));
    }
    assert(bytes@.take(bytes.len() as int) =~= bytes@);
}

/// `path_id`: the kind and the MD5 of the path's bytes.
pub open spec fn path_id_of(kind: SourceKind, path: Seq<char>) -> Seq<char> {
    kind_name(kind) + seq!['-'] + hex_lower(md5_digest(vstd::utf8::encode_utf8(path)))
}

pub fn path_id(kind: SourceKind, path: &str) -> (r: String)
    ensures
        r@ == path_id_of(kind, path@),
{
    let digest = md5_of_bytes(path.as_bytes());
    let mut out: Vec<char> = text::chars_of(kind_name_exec(kind));
    out.push('-');
    push_hex_lower(&mut out, &digest);
    assert(out@ =~= path_id_of(kind, path@));
    text::string_of(&out)
}

pub open spec fn source_of(
    kind: SourceKind,
    path: Seq<char>,
    name: Seq<char>,
    recursive: bool,
    removable: bool,
) -> SourceView {
    SourceView {
        id: path_id_of(kind, path),
        kind,
        path,
        enabled: true,
        recursive,
        removable,
        display_name: name,
    }
}

/// `source`: an enabled source for the (canonical) folder `path`.
pub fn source(kind: SourceKind, path: &str, name: &str, recursive: bool, removable: bool) -> (r:
    WallpaperSource)
    ensures
        r@ == source_of(kind, path@, name@, recursive, removable),
{
    WallpaperSource {
        id: path_id(kind, path),
        kind,
        path: String::from_str(path),
        enabled: true,
        recursive,
        removable,
        display_name: String::from_str(name),
    }
}

/// The position of the first source with `id`.
pub open spec fn source_position(vs: Seq<SourceView>, id: Seq<char>) -> Option<int>
    decreases vs.len(),
{
    if vs.len() == 0 {
        None
    } else if vs[0].id == id {
        Some(0)
    } else {
        match source_position(vs.drop_first(), id) {
            Some(i) => Some(i + 1),
            None => None,
        }
    }
}

fn source_position_exec(sources: &Vec<WallpaperSource>, id: &str) -> (r: Option<usize>)
    ensures
        r matches Some(i) ==> i < sources.len() && source_position(sources_view(sources@), id@)
            == Some(i as int),
        r is None ==> source_position(sources_view(sources@), id@) is None,
{
    let ghost vs = sources_view(sources@);
    let mut i: usize = 0;
    assert(vs.skip(0) =~= vs);
    while i < sources.len()
        invariant
            i <= sources.len(),
            vs == sources_view(sources@),
            source_position(vs, id@) == match source_position(vs.skip(i as int), id@) {
                Some(k) => Some(k + i),
                None => None,
            },
        decreases sources.len() - i,
    {
        assert(vs.skip(i as int)[0] == sources@[i as int]@);
        if crate::context::str_eq(sources[i].id.as_str(), id) {
            return Some(i);
        }
        assert(vs.skip(i as int).drop_first() =~= vs.skip(i + 1));
        i = i + 1;
    }
    assert(vs.skip(i as int) =~= Seq::<SourceView>::empty());
    None
}

/// `remove_source`: the first source with `id` removed, where it may be.
pub fn remove_source(data: &mut WallpaperLibrary, id: &str) -> (r: Result<(), String>)
    ensures
        ({
            let vs = sources_view(old(data).sources@);
            match source_position(vs, id@) {
                None => r matches Err(e) && e@ == "Unknown source"@ && *final(data) == *old(data),
                Some(i) => if vs[i].removable {
                    r is Ok && final(data).sources@ == old(data).sources@.remove(i) && final(data).provider_records == old(data).provider_records && final(data).download_root
                        == old(data).download_root
                } else {
                    r matches Err(e) && e@ == "Managed source cannot be removed"@ && *final(data)
                        == *old(data)
                },
            }
        }),
{
    let pos = match source_position_exec(&data.sources, id) {
        Some(p) => p,
        None => {
            return Err(String::from_str("Unknown source"));
        },
    };
    if !data.sources[pos].removable {
        return Err(String::from_str("Managed source cannot be removed"));
    }
    data.sources.remove(pos);
    Ok(())
}

/// `enable_source`: the first source with `id` enabled or disabled.
pub fn enable_source(data: &mut WallpaperLibrary, id: &str, enabled: bool) -> (r: Result<(), String>)
    ensures
        ({
            let vs = sources_view(old(data).sources@);
            match source_position(vs, id@) {
                None => r matches Err(e) && e@ == "Unknown source"@ && *final(data) == *old(data),
                Some(i) => r is Ok && final(data).sources@.len() == old(data).sources@.len()
                    && sources_view(final(data).sources@) == vs.update(
                    i,
                    SourceView { enabled, ..vs[i] },
                ) && final(data).provider_records == old(data).provider_records && final(data).download_root == old(data).download_root,
            }
        }),
{
    let pos = match source_position_exec(&data.sources, id) {
        Some(p) => p,
        None => {
            return Err(String::from_str("Unknown source"));
        },
    };
    let ghost before = data.sources@;
    let mut s = data.sources.remove(pos);
    s.enabled = enabled;
    data.sources.insert(pos, s);
    assert(sources_view(data.sources@) =~= sources_view(before).update(
        pos as int,
        SourceView { enabled, ..sources_view(before)[pos as int] },
    ));
    Ok(())
}

/// A folder added as a source, where no source had its id, is the one that
/// removing that id takes away, and the sources are then as they were.
pub proof fn lemma_remove_added_source(vs: Seq<SourceView>, s: SourceView)
    requires
        source_position(vs, s.id) is None,
    ensures
        source_position(vs.push(s), s.id) == Some(vs.len() as int),
        vs.push(s).remove(vs.len() as int) == vs,
    decreases vs.len(),
{
    if vs.len() > 0 {
        lemma_remove_added_source(vs.drop_first(), s);
        assert(vs.push(s).drop_first() =~= vs.drop_first().push(s));
    }
    assert(vs.push(s).remove(vs.len() as int) =~= vs);
}

/// The position found holds a source with the id.
proof fn lemma_source_position_found(vs: Seq<SourceView>, id: Seq<char>)
    requires
        source_position(vs, id) is Some,
    ensures
        0 <= source_position(vs, id)->0 < vs.len(),
        vs[source_position(vs, id)->0].id == id,
    decreases vs.len(),
{
    if vs[0].id != id {
        lemma_source_position_found(vs.drop_first(), id);
    }
}

/// Enabling or disabling a source keeps every id where it was, so a second
/// call with the previous setting finds the same source and restores the
/// sources as they were.
pub proof fn lemma_enable_restores(vs: Seq<SourceView>, id: Seq<char>, enabled: bool)
    requires
        source_position(vs, id) is Some,
    ensures
        ({
            let i = source_position(vs, id)->0;
            let once = vs.update(i, SourceView { enabled, ..vs[i] });
            &&& source_position(once, id) == Some(i)
            &&& once.update(i, SourceView { enabled: vs[i].enabled, ..once[i] }) == vs
        }),
    decreases vs.len(),
{
    lemma_source_position_found(vs, id);
    let i = source_position(vs, id)->0;
    let once = vs.update(i, SourceView { enabled, ..vs[i] });
    if vs[0].id != id {
        lemma_enable_restores(vs.drop_first(), id, enabled);
        assert(once.drop_first() =~= vs.drop_first().update(i - 1, SourceView { enabled, ..vs[i] }));
    } else {
        assert(once[0].id == id);
    }
    assert(once.update(i, SourceView { enabled: vs[i].enabled, ..once[i] }) =~= vs);
}

/// `add_source_internal`. `is_dir` is whether `path` is a folder,
/// `normalized_path` its canonical form, and `sources_normalized` the
/// canonical form of each source's folder.
pub fn add_source_internal(
    data: &mut WallpaperLibrary,
    kind: SourceKind,
    path: &str,
    is_dir: bool,
    normalized_path: &str,
    name: &str,
    removable: bool,
    sources_normalized: &Vec<String>,
) -> (r: Result<(), String>)
    requires
        sources_normalized.len() == old(data).sources.len(),
    ensures
        !is_dir ==> (r matches Err(e) && e@ == "Folder does not exist: "@ + path@ && *final(data)
            == *old(data)),
        is_dir ==> r is Ok,
        is_dir && (exists|i: int|
            0 <= i < sources_normalized.len() && #[trigger] sources_normalized@[i]@
                == normalized_path@) ==> *final(data) == *old(data),
        is_dir && !(exists|i: int|
            0 <= i < sources_normalized.len() && #[trigger] sources_normalized@[i]@
                == normalized_path@) ==> {
            &&& sources_view(final(data).sources@) == sources_view(old(data).sources@).push(
                source_of(kind, normalized_path@, name@, true, removable),
            )
            &&& final(data).provider_records == old(data).provider_records
            &&& final(data).download_root == old(data).download_root
        },
{
    if !is_dir {
        let mut m = text::chars_of("Folder does not exist: ");
        text::push_str(&mut m, path);
        return Err(text::string_of(&m));
    }
    let mut i: usize = 0;
    while i < sources_normalized.len()
        invariant
            i <= sources_normalized.len(),
            is_dir,
            *data == *old(data),
            forall|j: int| 0 <= j < i ==> #[trigger] sources_normalized@[j]@ != normalized_path@,
        decreases sources_normalized.len() - i,
    {
        if crate::context::str_eq(sources_normalized[i].as_str(), normalized_path) {
            return Ok(());
        }
        i = i + 1;
    }
    let new = source(kind, normalized_path, name, true, removable);
    let ghost before = data.sources@;
    data.sources.push(new);
    assert(sources_view(data.sources@) =~= sources_view(before).push(new@));
    Ok(())
}

/// The first downloads source becomes the archive of earlier downloads.
pub open spec fn demote_downloads(vs: Seq<SourceView>) -> Seq<SourceView>
    decreases vs.len(),
{
    if vs.len() == 0 {
        vs
    } else if vs[0].kind == SourceKind::MatugenDownloads {
        vs.update(
            0,
            SourceView {
                kind: SourceKind::DownloadArchive,
                removable: false,
                display_name: "Previous Matugen downloads"@,
                ..vs[0]
            },
        )
    } else {
        seq![vs[0]] + demote_downloads(vs.drop_first())
    }
}

/// The sources whose canonical folder is not `new`.
pub open spec fn keep_other_folders(
    vs: Seq<SourceView>,
    norms: Seq<Seq<char>>,
    new: Seq<char>,
) -> Seq<SourceView>
    decreases vs.len(),
{
    if vs.len() == 0 || norms.len() == 0 {
        Seq::empty()
    } else {
        let rest = keep_other_folders(vs.drop_first(), norms.drop_first(), new);
        if norms[0] == new {
            rest
        } else {
            seq![vs[0]] + rest
        }
    }
}

/// `change_download_root`: a new (canonical) download folder `new` becomes the
/// first source; the previous downloads stay as an archive. `old_normalized`
/// is the canonical form of the previous root, `sources_normalized` that of
/// each source's folder.
pub fn change_download_root(
    data: &mut WallpaperLibrary,
    new: &str,
    old_normalized: &str,
    sources_normalized: &Vec<String>,
)
    requires
        sources_normalized.len() == old(data).sources.len(),
    ensures
        old_normalized@ == new@ ==> *final(data) == *old(data),
        old_normalized@ != new@ ==> {
            &&& final(data).download_root@ == new@
            &&& sources_view(final(data).sources@) == seq![
                source_of(SourceKind::MatugenDownloads, new@, "Matugen Studio Downloads"@, true, false),
            ] + keep_other_folders(
                demote_downloads(sources_view(old(data).sources@)),
                sources_normalized@.map_values(|s: String| s@),
                new@,
            )
            &&& final(data).provider_records == old(data).provider_records
            &&& final(data).legacy_folders_migrated == old(data).legacy_folders_migrated
            &&& final(data).legacy_history_migrated == old(data).legacy_history_migrated
        },
{
    if crate::context::str_eq(old_normalized, new) {
        return;
    }
    let ghost norms = sources_normalized@.map_values(|s: String| s@);
    let ghost v0 = sources_view(data.sources@);
    let mut kept: Vec<WallpaperSource> = Vec::new();
    let mut demoted = false;
    let mut i: usize = 0;
    assert(v0.skip(0) =~= v0);
    assert(norms.skip(0) =~= norms);
    while data.sources.len() > 0
        invariant
            i + data.sources.len() == sources_normalized.len(),
            v0.len() == sources_normalized.len(),
            v0 == sources_view(old(data).sources@),
            data.provider_records == old(data).provider_records,
            data.legacy_folders_migrated == old(data).legacy_folders_migrated,
            data.legacy_history_migrated == old(data).legacy_history_migrated,
            norms == sources_normalized@.map_values(|s: String| s@),
            sources_view(data.sources@) =~= (if demoted {
                v0.skip(i as int)
            } else {
                v0.skip(i as int)
            }),
            keep_other_folders(demote_downloads(v0), norms, new@) == sources_view(kept@)
                + keep_other_folders(
                if demoted {
                    v0.skip(i as int)
                } else {
                    demote_downloads(v0.skip(i as int))
                },
                norms.skip(i as int),
                new@,
            ),
            !demoted ==> demote_downloads(v0) == v0.take(i as int) + demote_downloads(
                v0.skip(i as int),
            ),
        decreases data.sources.len(),
    {
        let ghost rest = v0.skip(i as int);
        let mut s = data.sources.remove(0);
        assert(rest[0] == s@);
        assert(rest.drop_first() =~= v0.skip(i + 1));
        assert(norms.skip(i as int)[0] == sources_normalized@[i as int]@);
        assert(norms.skip(i as int).drop_first() =~= norms.skip(i + 1));
        let ghost was_demoted = demoted;
        if !demoted && s.kind == SourceKind::MatugenDownloads {
            s.kind = SourceKind::DownloadArchive;
            s.removable = false;
            s.display_name = String::from_str("Previous Matugen downloads");
            demoted = true;
            assert(demote_downloads(rest) == rest.update(0, s@));
            assert(rest.update(0, s@).drop_first() =~= rest.drop_first());
        } else if !demoted {
            assert(demote_downloads(rest) == seq![rest[0]] + demote_downloads(rest.drop_first()));
            assert((seq![rest[0]] + demote_downloads(rest.drop_first())).drop_first() =~= demote_downloads(rest.drop_first()));
        }
        let ghost front = if was_demoted {
            rest
        } else {
            demote_downloads(rest)
        };
        assert(front[0] == s@);
        assert(front.drop_first() == (if demoted {
            v0.skip(i + 1)
        } else {
            demote_downloads(v0.skip(i + 1))
        }));
        if !crate::context::str_eq(sources_normalized[i].as_str(), new) {
            let ghost kb = sources_view(kept@);
            kept.push(s);
            assert(sources_view(kept@) =~= kb.push(s@));
            assert(kb + keep_other_folders(front, norms.skip(i as int), new@) =~= sources_view(
                kept@,
            ) + keep_other_folders(front.drop_first(), norms.skip(i + 1), new@));
        }
        proof {
            if !was_demoted && !demoted {
                assert(v0.take(i + 1) =~= v0.take(i as int).push(rest[0]));
                assert(v0.take(i as int) + demote_downloads(rest) =~= v0.take(i + 1)
                    + demote_downloads(v0.skip(i + 1)));
            }
        }
        i = i + 1;
    }
    assert(v0.skip(i as int) =~= Seq::<SourceView>::empty());
    assert(norms.skip(i as int) =~= Seq::<Seq<char>>::empty());
    let first = source(SourceKind::MatugenDownloads, new, "Matugen Studio Downloads", true, false);
    let ghost kv = sources_view(kept@);
    kept.insert(0, first);
    assert(sources_view(kept@) =~= seq![first@] + kv);
    data.sources = kept;
    data.download_root = String::from_str(new);
}


// ── Changing every record ────────────────────────────────────────────────────

/// The records have the same keys in the same order as `b`.
pub open spec fn same_keys(a: Seq<(String, ProviderRecord)>, b: Seq<(String, ProviderRecord)>) -> bool {
    a.len() == b.len() && forall|i: int| 0 <= i < a.len() ==> #[trigger] a[i].0 == b[i].0
}

proof fn lemma_same_keys_sorted(a: Seq<(String, ProviderRecord)>, b: Seq<(String, ProviderRecord)>)
    requires
        same_keys(a, b),
        keys_sorted(b),
    ensures
        keys_sorted(a),
{
    assert forall|i: int, j: int| 0 <= i < j < a.len() implies text_lt(#[trigger] a[i].0@, #[trigger] a[j].0@) by {
        assert(a[i].0 == b[i].0 && a[j].0 == b[j].0);
    }
}

/// A record hidden from the history where it is the provider's, and the
/// wallpaper `id` where one is given.
pub open spec fn hidden_if(r: RecordView, provider: Seq<char>, id: Option<Seq<char>>) -> RecordView {
    if r.provider == provider && (id is None || id == Some(r.provider_id)) {
        RecordView { hidden_from_history: true, ..r }
    } else {
        r
    }
}

pub open spec fn identity_ok(provider: Seq<char>, id: Option<Seq<char>>) -> bool {
    safe_segment_of(provider) && (id matches Some(i) ==> safe_segment_of(i))
}

/// `hide_provider_history` on the loaded library.
pub fn hide_provider_history(data: &mut WallpaperLibrary, provider: &str, id: Option<&str>) -> (r:
    Result<(), String>)
    requires
        old(data).wf(),
    ensures
        final(data).wf(),
        r is Err <==> !identity_ok(provider@, opt_str(id)),
        r matches Err(e) ==> e@ == "Invalid provider identity"@ && *final(data) == *old(data),
        r is Ok ==> {
            &&& same_but_records(*final(data), *old(data))
            &&& same_keys(final(data).provider_records@, old(data).provider_records@)
            &&& forall|i: int| 0 <= i < old(data).provider_records.len() ==> (#[trigger] final(data).provider_records@[i]).1@
                == hidden_if(old(data).provider_records@[i].1@, provider@, opt_str(id))
        },
{
    let id_ok = match id {
        Some(i) => safe_segment(i),
        None => true,
    };
    if !safe_segment(provider) || !id_ok {
        return Err(String::from_str("Invalid provider identity"));
    }
    let ghost rs0 = data.provider_records@;
    let mut out: Vec<(String, ProviderRecord)> = Vec::new();
    let mut i: usize = 0;
    while data.provider_records.len() > 0
        invariant
            i + data.provider_records.len() == rs0.len(),
            rs0.len() == old(data).provider_records.len(),
            data.provider_records@ == rs0.skip(i as int),
            out.len() == i,
            forall|j: int| 0 <= j < i ==> (#[trigger] out@[j]).0 == rs0[j].0 && out@[j].1@
                == hidden_if(rs0[j].1@, provider@, opt_str(id)),
            same_but_records(*data, *old(data)),
            rs0 == old(data).provider_records@,
        decreases data.provider_records.len(),
    {
        let (k, mut rec) = data.provider_records.remove(0);
        assert(rs0.skip(i as int)[0] == (k, rec));
        assert(rs0.skip(i as int).remove(0) =~= rs0.skip(i + 1));
        let matches_id = match id {
            Some(x) => crate::context::str_eq(x, rec.provider_id.as_str()),
            None => true,
        };
        if crate::context::str_eq(rec.provider.as_str(), provider) && matches_id {
            rec.hidden_from_history = true;
        }
        out.push((k, rec));
        i = i + 1;
    }
    proof {
        lemma_same_keys_sorted(out@, rs0);
    }
    data.provider_records = out;
    Ok(())
}

/// What the file system says of a record's paths: whether each decodes as
/// an image, and the canonical form of the applied path.
#[derive(Debug)]
pub struct RecordCheck {
    pub cache_is_image: bool,
    pub active_is_image: bool,
    pub active_normalized: Option<String>,
    pub saved_is_image: bool,
}

/// A path is kept only where the file is still an image.
pub open spec fn kept_if(p: Option<Seq<char>>, ok: bool) -> Option<Seq<char>> {
    if ok {
        p
    } else {
        None
    }
}

/// A record without the paths that no longer hold images; the applied path
/// also has to lie in the applied-wallpaper folder.
pub open spec fn repaired(r: RecordView, c: RecordCheck, active_root: Option<Seq<char>>) -> RecordView {
    RecordView {
        cache_path: kept_if(r.cache_path, c.cache_is_image),
        active_path: kept_if(
            r.active_path,
            active_root is Some && opt_view(c.active_normalized) is Some && path::path_starts_with(
                opt_view(c.active_normalized)->0,
                active_root->0,
            ) && c.active_is_image,
        ),
        saved_path: kept_if(r.saved_path, c.saved_is_image),
        ..r
    }
}

/// `repair_with_active_root`: each record checked against its `checks` entry.
pub fn repair_with_active_root(
    data: &mut WallpaperLibrary,
    checks: &Vec<RecordCheck>,
    active_root: Option<&str>,
)
    requires
        old(data).wf(),
        checks.len() == old(data).provider_records.len(),
    ensures
        final(data).wf(),
        same_but_records(*final(data), *old(data)),
        same_keys(final(data).provider_records@, old(data).provider_records@),
        forall|i: int| 0 <= i < old(data).provider_records.len() ==> (#[trigger] final(data).provider_records@[i]).1@
            == repaired(old(data).provider_records@[i].1@, checks@[i], opt_str(active_root)),
{
    let ghost rs0 = data.provider_records@;
    let mut out: Vec<(String, ProviderRecord)> = Vec::new();
    let mut i: usize = 0;
    while data.provider_records.len() > 0
        invariant
            i + data.provider_records.len() == rs0.len(),
            checks.len() == rs0.len(),
            data.provider_records@ == rs0.skip(i as int),
            out.len() == i,
            forall|j: int| 0 <= j < i ==> (#[trigger] out@[j]).0 == rs0[j].0 && out@[j].1@
                == repaired(rs0[j].1@, checks@[j], opt_str(active_root)),
            same_but_records(*data, *old(data)),
            rs0 == old(data).provider_records@,
        decreases data.provider_records.len(),
    {
        let (k, mut rec) = data.provider_records.remove(0);
        assert(rs0.skip(i as int)[0] == (k, rec));
        assert(rs0.skip(i as int).remove(0) =~= rs0.skip(i + 1));
        let c = &checks[i];
        if !c.cache_is_image {
            rec.cache_path = None;
        }
        if !c.saved_is_image {
            rec.saved_path = None;
        }
        let active_ok = match (active_root, &c.active_normalized) {
            (Some(root), Some(n)) => path::path_starts_with_exec(n.as_str(), root) && c.active_is_image,
            _ => false,
        };
        if !active_ok {
            rec.active_path = None;
        }
        out.push((k, rec));
        i = i + 1;
    }
    proof {
        lemma_same_keys_sorted(out@, rs0);
    }
    data.provider_records = out;
}

/// A legacy download as values.
pub open spec fn legacy_view(e: LegacyHistoryEntry) -> (Seq<char>, Seq<char>, Option<Seq<char>>, Option<u64>) {
    (e.id@, e.local_path@, opt_view(e.thumb), e.downloaded_at)
}

/// The record that a legacy download becomes: a Wallhaven wallpaper, in the
/// cache only where its file lives there.
pub open spec fn legacy_record(
    e: (Seq<char>, Seq<char>, Option<Seq<char>>, Option<u64>),
    cached: bool,
) -> RecordView {
    RecordView {
        provider: "wallhaven"@,
        provider_id: e.0,
        cache_path: if cached {
            Some(e.1)
        } else {
            None
        },
        active_path: None,
        saved_path: None,
        thumb: e.2,
        last_used_at: e.3,
        saved_at: None,
        hidden_from_history: false,
    }
}

/// The legacy downloads with a safe id added, in order, where no record with
/// their key exists yet.
pub open spec fn migrated(
    m: Map<Seq<char>, RecordView>,
    es: Seq<(Seq<char>, Seq<char>, Option<Seq<char>>, Option<u64>)>,
    cached: Seq<bool>,
) -> Map<Seq<char>, RecordView>
    decreases es.len(),
{
    if es.len() == 0 || cached.len() < es.len() {
        m
    } else {
        let before = migrated(m, es.drop_last(), cached);
        let e = es.last();
        let k = record_key_of("wallhaven"@, e.0);
        if !safe_segment_of(e.0) || before.dom().contains(k) {
            before
        } else {
            before.insert(k, legacy_record(e, cached[es.len() - 1]))
        }
    }
}

/// `migrate_legacy_history` on the loaded library. For each entry,
/// `is_image` says whether its file decodes as an image and
/// `normalized_paths` gives its canonical form; `normalized_cache` is the
/// canonical provider cache folder.
pub fn migrate_legacy_history(
    data: &mut WallpaperLibrary,
    entries: &Vec<LegacyHistoryEntry>,
    is_image: &Vec<bool>,
    normalized_paths: &Vec<String>,
    normalized_cache: &str,
)
    requires
        old(data).wf(),
        is_image.len() == entries.len(),
        normalized_paths.len() == entries.len(),
    ensures
        final(data).wf(),
        same_but_records(*final(data), *old(data)),
        final(data).records() == migrated(
            old(data).records(),
            entries@.map_values(|e: LegacyHistoryEntry| legacy_view(e)),
            Seq::new(
                entries.len() as nat,
                |i: int| is_image@[i] && path::path_starts_with(normalized_paths@[i]@, normalized_cache@),
            ),
        ),
{
    let ghost es = entries@.map_values(|e: LegacyHistoryEntry| legacy_view(e));
    let ghost cached = Seq::new(
        entries.len() as nat,
        |i: int| is_image@[i] && path::path_starts_with(normalized_paths@[i]@, normalized_cache@),
    );
    let ghost m0 = data.records();
    let mut i: usize = 0;
    while i < entries.len()
        invariant
            i <= entries.len(),
            is_image.len() == entries.len(),
            normalized_paths.len() == entries.len(),
            es == entries@.map_values(|e: LegacyHistoryEntry| legacy_view(e)),
            cached == Seq::new(
                entries.len() as nat,
                |i: int| is_image@[i] && path::path_starts_with(normalized_paths@[i]@, normalized_cache@),
            ),
            data.wf(),
            same_but_records(*data, *old(data)),
            m0 == old(data).records(),
            data.records() == migrated(m0, es.take(i as int), cached),
        decreases entries.len() - i,
    {
        let e = &entries[i];
        assert(es.take(i + 1).drop_last() =~= es.take(i as int));
        assert(es.take(i + 1).last() == legacy_view(entries@[i as int]));
        if safe_segment(e.id.as_str()) {
            let c = is_image[i] && path::path_starts_with_exec(normalized_paths[i].as_str(), normalized_cache);
            assert(c == cached[i as int]);
            let rec = ProviderRecord {
                provider: String::from_str("wallhaven"),
                provider_id: e.id.clone(),
                cache_path: if c {
                    Some(e.local_path.clone())
                } else {
                    None
                },
                active_path: None,
                saved_path: None,
                thumb: clone_opt(&e.thumb),
                last_used_at: e.downloaded_at,
                saved_at: None,
                hidden_from_history: false,
            };
            assert(rec@ == legacy_record(legacy_view(*e), c));
            let key = record_key("wallhaven", e.id.as_str());
            let _ = entry_index(&mut data.provider_records, key, rec);
        }
        i = i + 1;
    }
    assert(es.take(entries.len() as int) =~= es);
}


// ── Saving and promoting files ───────────────────────────────────────────────

/// `promote_active_to_root`: the folder under `active_root` that a provider's
/// applied wallpaper is copied to, where the source is an image.
pub open spec fn promote_dir_of(active_root: Seq<char>, provider: Seq<char>, source_is_image: bool) -> Result<
    Seq<char>,
    Seq<char>,
> {
    if safe_segment_of(provider) && source_is_image {
        Ok(path::join(active_root, provider))
    } else {
        Err("Invalid source wallpaper"@)
    }
}

pub fn promote_active_to_root(active_root: &str, provider: &str, source_is_image: bool) -> (r: Result<
    String,
    String,
>)
    ensures
        r matches Ok(d) ==> promote_dir_of(active_root@, provider@, source_is_image) == Ok::<
            Seq<char>,
            Seq<char>,
        >(d@),
        r matches Err(e) ==> promote_dir_of(active_root@, provider@, source_is_image) == Err::<
            Seq<char>,
            Seq<char>,
        >(e@),
{
    if !safe_segment(provider) || !source_is_image {
        return Err(String::from_str("Invalid source wallpaper"));
    }
    Ok(path::join_exec(active_root, provider))
}

/// `promote_managed_active`: the folder that the applied wallpaper is copied
/// to, under the managed folder of the XDG data directory.
pub fn promote_managed_active(provider: &str, source_is_image: bool) -> (r: Result<String, String>)
    ensures
        !(safe_segment_of(provider@) && source_is_image) ==> r is Err,
        r matches Ok(d) ==> exists|data_dir: Seq<char>|
            promote_dir_of(active_root_of(data_dir), provider@, source_is_image) == Ok::<
                Seq<char>,
                Seq<char>,
            >(d@),
        r matches Err(e) ==> e@ == "XDG data directory unavailable"@ || (e@
            == "Invalid source wallpaper"@ && !(safe_segment_of(provider@) && source_is_image)),
{
    let root = managed_active_root()?;
    promote_active_to_root(root.as_str(), provider, source_is_image)
}

/// `save_cached`: the provider folder under the download root, and whether
/// the bytes come from the cached file (else from the download).
pub fn save_cached(data: &WallpaperLibrary, provider: &str, cache_is_image: bool, have_bytes: bool) -> (r:
    Result<(String, bool), String>)
    ensures
        match provider_dir_of(data.download_root@, provider@) {
            Err(e) => r matches Err(x) && x@ == e,
            Ok(dir) => if cache_is_image {
                r matches Ok(p) && p.0@ == dir && p.1
            } else if have_bytes {
                r matches Ok(p) && p.0@ == dir && !p.1
            } else {
                r matches Err(x) && x@ == "No cached image or downloaded bytes"@
            },
        },
{
    let dir = provider_dir(data.download_root.as_str(), provider)?;
    if cache_is_image {
        Ok((dir, true))
    } else if have_bytes {
        Ok((dir, false))
    } else {
        Err(String::from_str("No cached image or downloaded bytes"))
    }
}

/// Where a cached wallpaper goes to become KDE's: the folder to copy it to
/// and its identity.
#[derive(Debug)]
pub struct StabilizePlan {
    pub dir: String,
    pub provider: String,
    pub id: String,
    pub ext: String,
}

pub open spec fn normal_component(c: Seq<char>) -> bool {
    c != seq!['/'] && c != seq!['.'] && c != seq!['.', '.']
}

/// The components of `p` after those of `base`, where `p` starts with `base`.
pub open spec fn relative_components(p: Seq<char>, base: Seq<char>) -> Seq<Seq<char>> {
    path::components(p).skip(path::components(base).len() as int)
}

pub enum StabilizeOutcome {
    /// Not in the application cache: KDE gets the path as it is.
    Unchanged,
    Promote { dir: Seq<char>, provider: Seq<char>, id: Seq<char>, ext: Seq<char> },
    Refused(Seq<char>),
}

/// `stabilize_kde_path_at`: a wallpaper in the application cache is copied
/// to the applied-wallpaper folder, where it is a provider's image named by
/// its id.
pub open spec fn stabilize_of(
    image_path: Seq<char>,
    cache_dir: Seq<char>,
    data_dir: Seq<char>,
    image_ok: bool,
    canonical_cache: Seq<char>,
    canonical_path: Seq<char>,
) -> StabilizeOutcome {
    let app_cache = path::join(cache_dir, "matugen-studio"@);
    if !path::path_starts_with(image_path, app_cache) {
        StabilizeOutcome::Unchanged
    } else if !image_ok {
        StabilizeOutcome::Refused("Cached wallpaper is unavailable or invalid"@)
    } else if !path::path_starts_with(canonical_path, canonical_cache) {
        StabilizeOutcome::Refused("Cached wallpaper escapes the application cache"@)
    } else {
        let rel = relative_components(canonical_path, canonical_cache);
        if rel.len() != 2 || !normal_component(rel[0]) || !normal_component(rel[1]) {
            StabilizeOutcome::Refused("Unsupported cached wallpaper path"@)
        } else {
            let provider = rel[0];
            let id = path::file_stem(rel[1])->0;
            match path::extension(rel[1]) {
                None => StabilizeOutcome::Refused("Missing image extension"@),
                Some(e) => if !safe_segment_of(provider) || !safe_segment_of(id) {
                    StabilizeOutcome::Refused("Invalid cached wallpaper identity"@)
                } else {
                    StabilizeOutcome::Promote {
                        dir: path::join(active_root_of(data_dir), provider),
                        provider,
                        id,
                        ext: text::lower(e),
                    }
                },
            }
        }
    }
}

fn is_normal_component_exec(c: &Vec<char>) -> (r: bool)
    ensures
        r == normal_component(c@),
{
    let root = c.len() == 1 && c[0] == '/';
    let dot = c.len() == 1 && c[0] == '.';
    let dotdot = c.len() == 2 && c[0] == '.' && c[1] == '.';
    proof {
        if root {
            assert(c@ =~= seq!['/']);
        }
        if dot {
            assert(c@ =~= seq!['.']);
        }
        if dotdot {
            assert(c@ =~= seq!['.', '.']);
        }
        if c@ == seq!['/'] {
            assert(c@[0] == '/');
        }
        if c@ == seq!['.'] {
            assert(c@[0] == '.');
        }
        if c@ == seq!['.', '.'] {
            assert(c@[0] == '.' && c@[1] == '.');
        }
    }
    !(root || dot || dotdot)
}

/// `stabilize_kde_path_at` on what the file system answered: whether the file
/// is an image and the canonical forms of the cache folder and the path.
pub fn stabilize_kde_path_at(
    image_path: &str,
    cache_dir: &str,
    data_dir: &str,
    image_ok: bool,
    canonical_cache: &str,
    canonical_path: &str,
) -> (r: Result<Option<StabilizePlan>, String>)
    ensures
        match stabilize_of(image_path@, cache_dir@, data_dir@, image_ok, canonical_cache@, canonical_path@) {
            StabilizeOutcome::Unchanged => r matches Ok(None),
            StabilizeOutcome::Refused(e) => r matches Err(x) && x@ == e,
            StabilizeOutcome::Promote { dir, provider, id, ext } => r matches Ok(Some(p)) && p.dir@
                == dir && p.provider@ == provider && p.id@ == id && p.ext@ == ext,
        },
{
    let app_cache = path::join_exec(cache_dir, "matugen-studio");
    if !path::path_starts_with_exec(image_path, app_cache.as_str()) {
        return Ok(None);
    }
    if !image_ok {
        return Err(String::from_str("Cached wallpaper is unavailable or invalid"));
    }
    if !path::path_starts_with_exec(canonical_path, canonical_cache) {
        return Err(String::from_str("Cached wallpaper escapes the application cache"));
    }
    let pc = path::components_exec(&text::chars_of(canonical_path));
    let bc = path::components_exec(&text::chars_of(canonical_cache));
    let ghost rel = relative_components(canonical_path@, canonical_cache@);
    if pc.len() < 2 || pc.len() - 2 != bc.len() {
        return Err(String::from_str("Unsupported cached wallpaper path"));
    }
    let provider_v = &pc[bc.len()];
    let file_v = &pc[bc.len() + 1];
    assert(rel[0] == provider_v@ && rel[1] == file_v@);
    if !is_normal_component_exec(provider_v) || !is_normal_component_exec(file_v) {
        return Err(String::from_str("Unsupported cached wallpaper path"));
    }
    let provider = text::string_of(provider_v);
    let file = text::string_of(file_v);
    proof {
        path::lemma_components_pieces(canonical_path@);
        path::lemma_components_pieces(canonical_cache@);
        assert(file_v@ == path::components(canonical_path@)[bc.len() + 1]);
        assert(path::lead_component(canonical_path@).len() <= 1);
        if bc.len() == 0 {
            assert(path::lead_component(canonical_path@).len() == 0 || path::components(canonical_path@)[0] == path::lead_component(canonical_path@)[0]);
        }
        assert(path::lead_component(canonical_path@).len() <= bc.len() + 1);
        path::lemma_single_component(file_v@);
    }
    let id = match path::file_stem_exec(file.as_str()) {
        Some(s) => s,
        None => {
            return Err(String::from_str("Invalid wallpaper ID"));
        },
    };
    let ext = match path::extension_exec(file.as_str()) {
        Some(e) => text::string_of(&text::lower_exec(&text::chars_of(e.as_str()))),
        None => {
            return Err(String::from_str("Missing image extension"));
        },
    };
    if !safe_segment(provider.as_str()) || !safe_segment(id.as_str()) {
        return Err(String::from_str("Invalid cached wallpaper identity"));
    }
    let root = active_root_for(data_dir);
    let dir = path::join_exec(root.as_str(), provider.as_str());
    Ok(Some(StabilizePlan { dir, provider, id, ext }))
}


// ── Saving downloaded bytes ──────────────────────────────────────────────────

/// The image formats that the library accepts, as `image::guess_format`
/// recognizes them from the first bytes.
#[derive(Debug, Clone, Copy, PartialEq, Eq, Structural)]
pub enum ImageKind {
    Jpeg,
    Png,
    WebP,
    Other,
}

/// The bytes begin with `prefix`.
pub open spec fn starts_with_bytes(bytes: Seq<u8>, prefix: Seq<u8>) -> bool {
    prefix.len() <= bytes.len() && bytes.subrange(0, prefix.len() as int) == prefix
}

/// The format that `image::guess_format` sees in the bytes, by its table of
/// signatures tried in order: the PNG signature, `FF D8 FF` for JPEG, and
/// `RIFF`, four bytes of any value and `WEBP` for WebP (the GIF signatures
/// between them begin with `G`); `Other` for any other format or none.
pub open spec fn guessed_format(bytes: Seq<u8>) -> ImageKind {
    if starts_with_bytes(bytes, seq![0x89u8, 0x50u8, 0x4eu8, 0x47u8, 0x0du8, 0x0au8, 0x1au8, 0x0au8]) {
        ImageKind::Png
    } else if starts_with_bytes(bytes, seq![0xffu8, 0xd8u8, 0xffu8]) {
        ImageKind::Jpeg
    } else if bytes.len() >= 12 && bytes.subrange(0, 4) == seq![0x52u8, 0x49u8, 0x46u8, 0x46u8]
        && bytes.subrange(8, 12) == seq![0x57u8, 0x45u8, 0x42u8, 0x50u8] {
        ImageKind::WebP
    } else {
        ImageKind::Other
    }
}

/// Calls `image::guess_format`: its answer is what `guessed_format` states.
#[verifier::external_body]
fn guess_image_kind(bytes: &[u8]) -> (r: ImageKind)
    ensures
        r == guessed_format(bytes@),
{
    match image::guess_format(bytes) {
        Ok(image::ImageFormat::Jpeg) => ImageKind::Jpeg,
        Ok(image::ImageFormat::Png) => ImageKind::Png,
        Ok(image::ImageFormat::WebP) => ImageKind::WebP,
        _ => ImageKind::Other,
    }
}

/// Whether `image::load_from_memory` decodes the bytes.
pub uninterp spec fn decodes_as_image(bytes: Seq<u8>) -> bool;

/// Calls `image::load_from_memory`; whether it succeeds is named by
/// `decodes_as_image`.
#[verifier::external_body]
fn image_decodes(bytes: &[u8]) -> (r: bool)
    ensures
        r == decodes_as_image(bytes@),
{
    image::load_from_memory(bytes).is_ok()
}

/// `image_matches_extension`: the bytes are of the format the file name says.
pub open spec fn matches_extension(p: Seq<char>, kind: ImageKind) -> bool {
    match path::extension(p) {
        Some(e) => {
            let l = text::lower(e);
            ||| kind == ImageKind::Jpeg && (l == "jpg"@ || l == "jpeg"@)
            ||| kind == ImageKind::Png && l == "png"@
            ||| kind == ImageKind::WebP && l == "webp"@
        },
        None => false,
    }
}

pub fn image_matches_extension(path: &str, bytes: &[u8]) -> (r: bool)
    ensures
        r == matches_extension(path@, guessed_format(bytes@)),
{
    let kind = guess_image_kind(bytes);
    match path::extension_exec(path) {
        Some(e) => {
            let l = text::lower_exec(&text::chars_of(e.as_str()));
            (kind == ImageKind::Jpeg && (text::eq_str(&l, "jpg") || text::eq_str(&l, "jpeg"))) || (
            kind == ImageKind::Png && text::eq_str(&l, "png")) || (kind == ImageKind::WebP
                && text::eq_str(&l, "webp"))
        },
        None => false,
    }
}

/// The names a saved file may take: `id.ext`, or where that holds other
/// bytes, `id-` and twelve hexadecimal digits of the content's MD5.
#[derive(Debug)]
pub struct SaveTarget {
    pub base: String,
    pub alternate: String,
}

pub open spec fn base_name(dir: Seq<char>, id: Seq<char>, ext: Seq<char>) -> Seq<char> {
    path::join(dir, id + seq!['.'] + ext)
}

pub open spec fn alternate_name(dir: Seq<char>, id: Seq<char>, ext: Seq<char>, bytes: Seq<u8>) -> Seq<char> {
    path::join(dir, id + seq!['-'] + hex_lower(md5_digest(bytes)).take(12) + seq!['.'] + ext)
}

/// The checks of `save_bytes` before it touches the disk.
pub open spec fn save_check(dir: Seq<char>, id: Seq<char>, ext: Seq<char>, bytes: Seq<u8>) -> Result<(), Seq<char>> {
    if !safe_segment_of(id) || !image_extension(ext) {
        Err("Invalid wallpaper filename"@)
    } else if bytes.len() == 0 || bytes.len() > 50 * 1024 * 1024 {
        Err("Invalid image size"@)
    } else if !matches_extension(base_name(dir, id, ext), guessed_format(bytes)) || !decodes_as_image(
        bytes,
    ) {
        Err("Invalid image content"@)
    } else {
        Ok(())
    }
}

/// `save_bytes` up to the disk: the checks, then the names to try.
pub fn save_bytes_target(dir: &str, id: &str, extension: &str, bytes: &[u8]) -> (r: Result<
    SaveTarget,
    String,
>)
    ensures
        match save_check(dir@, id@, extension@, bytes@) {
            Err(e) => r matches Err(x) && x@ == e,
            Ok(()) => r matches Ok(t) && t.base@ == base_name(dir@, id@, extension@) && t.alternate@
                == alternate_name(dir@, id@, extension@, bytes@),
        },
{
    let ev = text::chars_of(extension);
    if !safe_segment(id) || !(text::eq_str(&ev, "jpg") || text::eq_str(&ev, "jpeg") || text::eq_str(
        &ev,
        "png",
    ) || text::eq_str(&ev, "webp")) {
        return Err(String::from_str("Invalid wallpaper filename"));
    }
    if bytes.len() == 0 || bytes.len() > 50 * 1024 * 1024 {
        return Err(String::from_str("Invalid image size"));
    }
    let mut name: Vec<char> = text::chars_of(id);
    name.push('.');
    text::push_all(&mut name, &ev);
    let base = path::join_exec(dir, text::string_of(&name).as_str());
    assert(name@ =~= id@ + seq!['.'] + extension@);
    if !image_matches_extension(base.as_str(), bytes) || !image_decodes(bytes) {
        return Err(String::from_str("Invalid image content"));
    }
    let digest = md5_of_bytes(bytes);
    let mut hex: Vec<char> = Vec::new();
    push_hex_lower(&mut hex, &digest);
    proof {
        lemma_hex_lower_len(digest@);
    }
    let mut alt: Vec<char> = text::chars_of(id);
    alt.push('-');
    let short = text::slice_of(&hex, 0, 12);
    text::push_all(&mut alt, &short);
    alt.push('.');
    text::push_all(&mut alt, &ev);
    assert(alt@ =~= id@ + seq!['-'] + hex_lower(md5_digest(bytes@)).take(12) + seq!['.'] + extension@);
    let alternate = path::join_exec(dir, text::string_of(&alt).as_str());
    Ok(SaveTarget { base, alternate })
}

proof fn lemma_hex_lower_len(b: Seq<u8>)
    ensures
        hex_lower(b).len() == 2 * b.len(),
    decreases b.len(),
{
    if b.len() > 0 {
        lemma_hex_lower_len(b.drop_last());
    }
}

/// What lies at a name the bytes may be saved under.
#[derive(Debug, Clone, Copy, PartialEq, Eq, Structural)]
pub enum ExistingFile {
    Missing,
    NotRegular,
    SameBytes,
    OtherBytes,
}

#[derive(Debug)]
pub enum SaveStep {
    /// The bytes are already there.
    Done(String),
    /// Write the bytes to this new file.
    WriteTo(String),
    /// Look at the alternate name.
    TryAlternate,
    Failed(String),
}

/// The decision at the first name: an existing file is never overwritten.
pub fn save_at_base(target: &SaveTarget, at_base: ExistingFile) -> (r: SaveStep)
    ensures
        at_base == ExistingFile::Missing ==> (r matches SaveStep::WriteTo(p) && p@ == target.base@),
        at_base == ExistingFile::NotRegular ==> (r matches SaveStep::Failed(e) && e@
            == "Destination is not a regular file"@),
        at_base == ExistingFile::SameBytes ==> (r matches SaveStep::Done(p) && p@ == target.base@),
        at_base == ExistingFile::OtherBytes ==> r is TryAlternate,
{
    match at_base {
        ExistingFile::Missing => SaveStep::WriteTo(target.base.clone()),
        ExistingFile::NotRegular => SaveStep::Failed(String::from_str("Destination is not a regular file")),
        ExistingFile::SameBytes => SaveStep::Done(target.base.clone()),
        ExistingFile::OtherBytes => SaveStep::TryAlternate,
    }
}

/// The decision at the alternate name: a different file there is a collision,
/// never overwritten.
pub fn save_at_alternate(target: &SaveTarget, at_alternate: ExistingFile) -> (r: SaveStep)
    ensures
        at_alternate == ExistingFile::Missing ==> (r matches SaveStep::WriteTo(p) && p@
            == target.alternate@),
        at_alternate == ExistingFile::NotRegular ==> (r matches SaveStep::Failed(e) && e@
            == "Destination is not a regular file"@),
        at_alternate == ExistingFile::SameBytes ==> (r matches SaveStep::Done(p) && p@
            == target.alternate@),
        at_alternate == ExistingFile::OtherBytes ==> (r matches SaveStep::Failed(e) && e@
            == "Wallpaper filename collision"@),
{
    match at_alternate {
        ExistingFile::Missing => SaveStep::WriteTo(target.alternate.clone()),
        ExistingFile::NotRegular => SaveStep::Failed(String::from_str("Destination is not a regular file")),
        ExistingFile::SameBytes => SaveStep::Done(target.alternate.clone()),
        ExistingFile::OtherBytes => SaveStep::Failed(String::from_str("Wallpaper filename collision")),
    }
}


// ── Scanning the sources ─────────────────────────────────────────────────────

/// The deepest folder level that a recursive scan enters.
pub open spec fn max_scan_depth() -> nat {
    48
}

/// A disabled source is not scanned, nor a download folder that does not
/// exist (yet).
pub fn scan_skips_source(source: &WallpaperSource, exists: bool) -> (r: bool)
    ensures
        r == (!source.enabled || ((source.kind == SourceKind::MatugenDownloads || source.kind
            == SourceKind::DownloadArchive) && !exists)),
{
    !source.enabled || ((source.kind == SourceKind::MatugenDownloads || source.kind
        == SourceKind::DownloadArchive) && !exists)
}

/// What a folder entry is, as `DirEntry::file_type` reports it.
#[derive(Debug, Clone, Copy, PartialEq, Eq, Structural)]
pub enum EntryType {
    Symlink,
    Dir,
    File,
    Other,
    /// The type could not be read.
    Unknown,
}

/// The scan's progress: folders still to read, canonical paths already
/// listed, and what it found.
#[derive(Debug)]
pub struct ScanState {
    pub stack: Vec<(String, usize)>,
    pub seen: Vec<String>,
    pub items: Vec<WallpaperItem>,
    pub errors: Vec<SourceScanError>,
}

pub open spec fn seen_view(v: Seq<String>) -> Seq<Seq<char>> {
    v.map_values(|s: String| s@)
}

/// An entry is worth opening as an image: a file with a supported extension.
pub fn scan_wants_image_check(kind: EntryType, path: &str) -> (r: bool)
    ensures
        r == (kind == EntryType::File && supported_ext_of(path@)),
{
    kind == EntryType::File && supported_ext(path)
}

/// The item that a found file becomes.
pub open spec fn found_item(
    source: WallpaperSource,
    normalized: Seq<char>,
    path: Seq<char>,
) -> (Seq<char>, Seq<char>, Seq<char>, SourceKind) {
    (
        normalized,
        match path::file_name(path) {
            Some(f) => f,
            None => Seq::empty(),
        },
        source.id@,
        source.kind,
    )
}

pub open spec fn item_view(i: WallpaperItem) -> (Seq<char>, Seq<char>, Seq<char>, SourceKind) {
    (i.path@, i.file_name@, i.source_id@, i.source_kind)
}

pub open spec fn items_view(v: Seq<WallpaperItem>) -> Seq<(Seq<char>, Seq<char>, Seq<char>, SourceKind)> {
    v.map_values(|i: WallpaperItem| item_view(i))
}

/// Each listed item's path is marked as seen, and no path is listed twice.
pub open spec fn listed_once(items: Seq<WallpaperItem>, seen: Seq<String>) -> bool {
    &&& forall|i: int| 0 <= i < items.len() ==> seen_view(seen).contains(#[trigger] items[i].path@)
    &&& forall|i: int, j: int| 0 <= i < j < items.len() ==> (#[trigger] items[i]).path@ != (#[trigger] items[j]).path@
}

proof fn lemma_listed_once_push(
    items: Seq<WallpaperItem>,
    seen: Seq<String>,
    items2: Seq<WallpaperItem>,
    seen2: Seq<String>,
    key: Seq<char>,
)
    requires
        listed_once(items, seen),
        !seen_view(seen).contains(key),
        seen_view(seen2) == seen_view(seen).push(key),
        items2.len() == items.len() + 1,
        forall|i: int| 0 <= i < items.len() ==> items2[i] == items[i],
        items2.last().path@ == key,
    ensures
        listed_once(items2, seen2),
{
    assert forall|i: int| 0 <= i < items2.len() implies seen_view(seen2).contains(#[trigger] items2[i].path@) by {
        if i < items.len() {
            assert(items2[i] == items[i]);
            let j = choose|j: int| 0 <= j < seen_view(seen).len() && seen_view(seen)[j] == items[i].path@;
            assert(seen_view(seen2)[j] == items[i].path@);
        } else {
            assert(seen_view(seen2)[seen_view(seen).len() as int] == key);
        }
    }
    assert forall|i: int, j: int| 0 <= i < j < items2.len() implies (#[trigger] items2[i]).path@ != (#[trigger] items2[j]).path@ by {
        assert(items2[i] == items[i]);
        if j == items.len() {
            assert(seen_view(seen).contains(items[i].path@));
        } else {
            assert(items2[j] == items[j]);
        }
    }
}

impl ScanState {
    pub fn new(source: &WallpaperSource) -> (r: ScanState)
        ensures
            r.stack@.len() == 1,
            r.stack@[0].0@ == source.path@,
            r.stack@[0].1 == 0,
            r.seen@.len() == 0,
            r.items@.len() == 0,
            r.errors@.len() == 0,
            listed_once(r.items@, r.seen@),
    {
        ScanState {
            stack: vec![(source.path.clone(), 0)],
            seen: Vec::new(),
            items: Vec::new(),
            errors: Vec::new(),
        }
    }

    /// Marks `key` as listed; false where it was listed before.
    fn insert_seen(&mut self, key: &str) -> (r: bool)
        ensures
            r == !seen_view(old(self).seen@).contains(key@),
            r ==> seen_view(final(self).seen@) == seen_view(old(self).seen@).push(key@),
            !r ==> final(self).seen@ == old(self).seen@,
            final(self).stack == old(self).stack,
            final(self).items == old(self).items,
            final(self).errors == old(self).errors,
    {
        let mut i: usize = 0;
        while i < self.seen.len()
            invariant
                i <= self.seen.len(),
                forall|j: int| 0 <= j < i ==> #[trigger] self.seen@[j]@ != key@,
            decreases self.seen.len() - i,
        {
            if crate::context::str_eq(self.seen[i].as_str(), key) {
                assert(seen_view(self.seen@)[i as int] == key@);
                return false;
            }
            i = i + 1;
        }
        assert(!seen_view(self.seen@).contains(key@)) by {
            if seen_view(self.seen@).contains(key@) {
                let j = choose|j: int| 0 <= j < seen_view(self.seen@).len() && seen_view(self.seen@)[j] == key@;
                assert(self.seen@[j]@ == key@);
            }
        }
        let ghost before = self.seen@;
        self.seen.push(String::from_str(key));
        assert(seen_view(self.seen@) =~= seen_view(before).push(key@));
        true
    }

    /// A folder of `source` could not be read.
    pub fn dir_error(&mut self, source: &WallpaperSource, dir: &str, message: &str)
        ensures
            final(self).errors@.len() == old(self).errors@.len() + 1,
            final(self).errors@.drop_last() == old(self).errors@,
            final(self).errors@.last().source_id@ == source.id@,
            final(self).errors@.last().message@ == dir@ + ": "@ + message@,
            final(self).stack == old(self).stack,
            final(self).seen == old(self).seen,
            final(self).items == old(self).items,
    {
        let mut m: Vec<char> = text::chars_of(dir);
        text::push_str(&mut m, ": ");
        text::push_str(&mut m, message);
        self.errors.push(SourceScanError { source_id: source.id.clone(), message: text::string_of(&m) });
        assert(self.errors@.drop_last() =~= old(self).errors@);
    }

    /// An entry of a folder could not be read.
    pub fn entry_error(&mut self, source: &WallpaperSource, message: String)
        ensures
            final(self).errors@ == old(self).errors@.push(
                SourceScanError { source_id: source.id, message },
            ),
            final(self).stack == old(self).stack,
            final(self).seen == old(self).seen,
            final(self).items == old(self).items,
    {
        self.errors.push(SourceScanError { source_id: source.id.clone(), message });
    }

    /// One entry of a folder at `depth`: folders are queued while the scan is
    /// recursive and not too deep; symbolic links are never followed; a file
    /// is listed once, by its canonical path, where it is a supported image.
    pub fn scan_entry(
        &mut self,
        source: &WallpaperSource,
        depth: usize,
        path: &str,
        kind: EntryType,
        image_ok: bool,
        normalized: &str,
    )
        ensures
            final(self).errors == old(self).errors,
            kind == EntryType::Dir && source.recursive && depth < max_scan_depth() ==> {
                &&& final(self).stack@.len() == old(self).stack@.len() + 1
                &&& final(self).stack@.drop_last() == old(self).stack@
                &&& final(self).stack@.last().0@ == path@
                &&& final(self).stack@.last().1 == depth + 1
                &&& final(self).seen == old(self).seen
                &&& final(self).items == old(self).items
            },
            !(kind == EntryType::Dir && source.recursive && depth < max_scan_depth()) ==> final(self).stack == old(self).stack,
            (kind == EntryType::File && supported_ext_of(path@) && image_ok && !seen_view(
                old(self).seen@,
            ).contains(normalized@)) ==> {
                &&& seen_view(final(self).seen@) == seen_view(old(self).seen@).push(normalized@)
                &&& items_view(final(self).items@) == items_view(old(self).items@).push(
                    found_item(*source, normalized@, path@),
                )
                &&& final(self).items@.last().provider is None
                &&& final(self).items@.last().provider_id is None
            },
            !(kind == EntryType::File && supported_ext_of(path@) && image_ok && !seen_view(
                old(self).seen@,
            ).contains(normalized@)) ==> final(self).items == old(self).items,
            !(kind == EntryType::File && supported_ext_of(path@) && image_ok && !seen_view(
                old(self).seen@,
            ).contains(normalized@)) ==> final(self).seen@ == old(self).seen@,
            listed_once(old(self).items@, old(self).seen@) ==> listed_once(final(self).items@, final(self).seen@),
    {
        match kind {
            EntryType::Dir => {
                if source.recursive && depth < 48 {
                    self.stack.push((String::from_str(path), depth + 1));
                }
            },
            EntryType::File => {
                if !supported_ext(path) || !image_ok {
                    return;
                }
                if !self.insert_seen(normalized) {
                    return;
                }
                let file_name = match path::file_name_exec(path) {
                    Some(f) => f,
                    None => String::new(),
                };
                let ghost before = self.items@;
                self.items.push(
                    WallpaperItem {
                        path: String::from_str(normalized),
                        file_name,
                        source_id: source.id.clone(),
                        source_kind: source.kind,
                        provider: None,
                        provider_id: None,
                    },
                );
                assert(items_view(self.items@) =~= items_view(before).push(
                    found_item(*source, normalized@, path@),
                ));
                proof {
                    if listed_once(old(self).items@, old(self).seen@) {
                        lemma_listed_once_push(before, old(self).seen@, self.items@, self.seen@, normalized@);
                    }
                }
            },
            _ => {},
        }
    }

    /// The current wallpaper is listed too, where it is an image not listed yet.
    pub fn add_current(&mut self, normalized: &str, path: &str, is_image: bool)
        ensures
            (is_image && !seen_view(old(self).seen@).contains(normalized@)) ==> {
                &&& seen_view(final(self).seen@) == seen_view(old(self).seen@).push(normalized@)
                &&& final(self).items@.len() == old(self).items@.len() + 1
                &&& final(self).items@.drop_last() == old(self).items@
                &&& final(self).items@.last().path@ == normalized@
                &&& final(self).items@.last().file_name@ == match path::file_name(path@) {
                    Some(f) => f,
                    None => Seq::<char>::empty(),
                }
                &&& final(self).items@.last().source_id@ == "current-wallpaper"@
                &&& final(self).items@.last().source_kind == SourceKind::CurrentWallpaper
            },
            !(is_image && !seen_view(old(self).seen@).contains(normalized@)) ==> final(self).items
                == old(self).items,
            final(self).errors == old(self).errors,
            final(self).stack == old(self).stack,
            listed_once(old(self).items@, old(self).seen@) ==> listed_once(final(self).items@, final(self).seen@),
    {
        if !is_image || !self.insert_seen(normalized) {
            return;
        }
        let file_name = match path::file_name_exec(path) {
            Some(f) => f,
            None => String::new(),
        };
        self.items.push(
            WallpaperItem {
                path: String::from_str(normalized),
                file_name,
                source_id: String::from_str("current-wallpaper"),
                source_kind: SourceKind::CurrentWallpaper,
                provider: None,
                provider_id: None,
            },
        );
        assert(self.items@.drop_last() =~= old(self).items@);
        proof {
            if listed_once(old(self).items@, old(self).seen@) {
                lemma_listed_once_push(old(self).items@, old(self).seen@, self.items@, self.seen@, normalized@);
            }
        }
    }
}

/// The provider identity of a saved wallpaper, by its canonical path: the
/// last record (in key order) that saved it.
pub open spec fn saved_identity(
    saved: Seq<(Seq<char>, Seq<char>, Seq<char>)>,
    path: Seq<char>,
) -> Option<(Seq<char>, Seq<char>)>
    decreases saved.len(),
{
    if saved.len() == 0 {
        None
    } else if saved.last().0 == path {
        Some((saved.last().1, saved.last().2))
    } else {
        saved_identity(saved.drop_last(), path)
    }
}

pub open spec fn saved_view(v: Seq<(String, String, String)>) -> Seq<(Seq<char>, Seq<char>, Seq<char>)> {
    v.map_values(|t: (String, String, String)| (t.0@, t.1@, t.2@))
}

fn saved_identity_exec(saved: &Vec<(String, String, String)>, path: &str) -> (r: Option<(String, String)>)
    ensures
        r matches Some(x) ==> saved_identity(saved_view(saved@), path@) == Some((x.0@, x.1@)),
        r is None ==> saved_identity(saved_view(saved@), path@) is None,
{
    let ghost sv = saved_view(saved@);
    let mut i: usize = saved.len();
    assert(sv.take(i as int) =~= sv);
    while i > 0
        invariant
            i <= saved.len(),
            sv == saved_view(saved@),
            saved_identity(sv, path@) == saved_identity(sv.take(i as int), path@),
        decreases i,
    {
        assert(sv.take(i as int).last() == sv[i - 1]);
        assert(sv.take(i as int).drop_last() =~= sv.take(i - 1));
        if crate::context::str_eq(saved[i - 1].0.as_str(), path) {
            return Some((saved[i - 1].1.clone(), saved[i - 1].2.clone()));
        }
        i = i - 1;
    }
    None
}

/// Items in ascending path order, each path not below the one before.
pub open spec fn sorted_by_path(v: Seq<WallpaperItem>) -> bool {
    forall|i: int, j: int| 0 <= i < j < v.len() ==> !text_lt(#[trigger] v[j].path@, #[trigger] v[i].path@)
}

/// No two items have the same path.
pub open spec fn paths_distinct(v: Seq<WallpaperItem>) -> bool {
    forall|i: int, j: int| 0 <= i < j < v.len() ==> (#[trigger] v[i]).path@ != (#[trigger] v[j]).path@
}

proof fn lemma_insert_keeps_distinct(
    before: Seq<WallpaperItem>,
    old_rest: Seq<WallpaperItem>,
    item: WallpaperItem,
    k: int,
)
    requires
        paths_distinct(before + old_rest),
        old_rest.len() > 0,
        old_rest[0].path@ == item.path@,
        0 <= k <= before.len(),
    ensures
        paths_distinct(before.insert(k, item) + old_rest.drop_first()),
{
    let old = before + old_rest;
    let new = before.insert(k, item) + old_rest.drop_first();
    let n = before.len() as int;
    assert forall|m: int| 0 <= m < new.len() implies (#[trigger] new[m]).path@ == old[if m < k {
        m
    } else if m == k {
        n
    } else if m <= n {
        m - 1
    } else {
        m
    }].path@ by {
        if m < k {
            assert(new[m] == before[m]);
        } else if m == k {
            assert(new[m] == item);
            assert(old[n] == old_rest[0]);
        } else if m <= n {
            assert(new[m] == before[m - 1]);
        } else {
            assert(new[m] == old_rest.drop_first()[m - n - 1]);
            assert(old[m] == old_rest[m - n]);
        }
    }
    assert forall|a: int, b: int| 0 <= a < b < new.len() implies (#[trigger] new[a]).path@ != (#[trigger] new[b]).path@ by {
        let ga = if a < k {
            a
        } else if a == k {
            n
        } else if a <= n {
            a - 1
        } else {
            a
        };
        let gb = if b < k {
            b
        } else if b == k {
            n
        } else if b <= n {
            b - 1
        } else {
            b
        };
        assert(new[a].path@ == old[ga].path@);
        assert(new[b].path@ == old[gb].path@);
        assert(ga != gb);
        if ga < gb {
            assert(old[ga].path@ != old[gb].path@);
        } else {
            assert(old[gb].path@ != old[ga].path@);
        }
    }
}

/// `scan`'s last steps: each item that some record saved gets that record's
/// provider identity, and the items are put in path order.
pub fn finish_scan(items: Vec<WallpaperItem>, saved: &Vec<(String, String, String)>) -> (r: Vec<
    WallpaperItem,
>)
    ensures
        sorted_by_path(r@),
        paths_distinct(items@) ==> paths_distinct(r@),
        r@.len() == items@.len(),
        r@.map_values(|i: WallpaperItem| item_view(i)).to_multiset() == items@.map_values(
            |i: WallpaperItem| item_view(i),
        ).to_multiset(),
        forall|k: int| 0 <= k < r@.len() ==> match saved_identity(saved_view(saved@), (#[trigger] r@[k]).path@) {
            Some((p, id)) => opt_view(r@[k].provider) == Some(p) && opt_view(r@[k].provider_id) == Some(id),
            None => r@[k].provider is None && r@[k].provider_id is None,
        },
{
    broadcast use vstd::seq_lib::group_to_multiset_ensures;

    let ghost orig = items@.map_values(|i: WallpaperItem| item_view(i));
    let ghost distinct = paths_distinct(items@);
    let mut rest = items;
    let mut out: Vec<WallpaperItem> = Vec::new();
    assert(out@ + rest@ =~= rest@);
    while rest.len() > 0
        invariant
            sorted_by_path(out@),
            distinct ==> paths_distinct(out@ + rest@),
            out@.map_values(|i: WallpaperItem| item_view(i)).to_multiset().add(
                rest@.map_values(|i: WallpaperItem| item_view(i)).to_multiset(),
            ) == orig.to_multiset(),
            out@.len() + rest@.len() == orig.len(),
            forall|k: int| 0 <= k < out@.len() ==> match saved_identity(saved_view(saved@), (#[trigger] out@[k]).path@) {
                Some((p, id)) => opt_view(out@[k].provider) == Some(p) && opt_view(out@[k].provider_id) == Some(id),
                None => out@[k].provider is None && out@[k].provider_id is None,
            },
        decreases rest.len(),
    {
        let ghost rv = rest@.map_values(|i: WallpaperItem| item_view(i));
        let ghost ov = out@.map_values(|i: WallpaperItem| item_view(i));
        let ghost old_rest = rest@;
        let mut item = rest.remove(0);
        assert(rest@ =~= old_rest.drop_first());
        assert(rv.remove(0) =~= rest@.map_values(|i: WallpaperItem| item_view(i)));
        assert(rv[0] == item_view(item));
        match saved_identity_exec(saved, item.path.as_str()) {
            Some((p, id)) => {
                item.provider = Some(p);
                item.provider_id = Some(id);
            },
            None => {
                item.provider = None;
                item.provider_id = None;
            },
        }
        let pv = text::chars_of(item.path.as_str());
        let mut k: usize = 0;
        while k < out.len()
            invariant
                k <= out.len(),
                pv@ == item.path@,
                forall|j: int| 0 <= j < k ==> !text_lt(item.path@, #[trigger] out@[j].path@),
            ensures
                k <= out.len(),
                forall|j: int| 0 <= j < k ==> !text_lt(item.path@, #[trigger] out@[j].path@),
                k < out.len() ==> text_lt(item.path@, out@[k as int].path@),
            decreases out.len() - k,
        {
            let ov_k = text::chars_of(out[k].path.as_str());
            if text_lt_exec(&pv, &ov_k) {
                break;
            }
            k = k + 1;
        }
        proof {
            assert forall|j: int| k <= j < out@.len() implies !text_lt(#[trigger] out@[j].path@, item.path@) by {
                if text_lt(out@[j].path@, item.path@) {
                    if j > k {
                        assert(!text_lt(out@[j].path@, out@[k as int].path@));
                        lemma_text_lt_transitive(out@[j].path@, item.path@, out@[k as int].path@);
                    } else {
                        lemma_text_lt_asymmetric(item.path@, out@[j].path@);
                    }
                }
            }
        }
        let ghost before = out@;
        proof {
            if distinct {
                lemma_insert_keeps_distinct(before, old_rest, item, k as int);
            }
        }
        out.insert(k, item);
        proof {
            assert forall|a: int, b: int| 0 <= a < b < out@.len() implies !text_lt(#[trigger] out@[b].path@, #[trigger] out@[a].path@) by {
                if b < k {
                    assert(out@[a] == before[a] && out@[b] == before[b]);
                } else if b == k {
                    assert(out@[a] == before[a] && out@[b] == item);
                } else if a < k {
                    assert(out@[a] == before[a] && out@[b] == before[b - 1]);
                } else if a == k {
                    assert(out@[a] == item && out@[b] == before[b - 1]);
                } else {
                    assert(out@[a] == before[a - 1] && out@[b] == before[b - 1]);
                }
            }
            assert(out@.map_values(|i: WallpaperItem| item_view(i)) =~= before.map_values(
                |i: WallpaperItem| item_view(i),
            ).insert(k as int, item_view(item)));
            broadcast use vstd::multiset::group_multiset_axioms;
            let x = item_view(item);
            assert(rv.contains(x)) by {
                assert(rv[0] == x);
            }
            vstd::seq_lib::to_multiset_contains(rv, x);
            assert(rv.to_multiset().count(x) > 0);
            let m_out = out@.map_values(|i: WallpaperItem| item_view(i)).to_multiset();
            let m_rest = rest@.map_values(|i: WallpaperItem| item_view(i)).to_multiset();
            assert(ov =~= before.map_values(|i: WallpaperItem| item_view(i)));
            vstd::seq_lib::to_multiset_insert(ov, k as int, x);
            vstd::seq_lib::to_multiset_remove(rv, 0);
            assert(m_out == ov.to_multiset().insert(x));
            assert(m_rest == rv.to_multiset().remove(x));
            assert(m_out.add(m_rest) =~= ov.to_multiset().add(rv.to_multiset()));
            assert forall|j: int| 0 <= j < out@.len() implies match saved_identity(saved_view(saved@), (#[trigger] out@[j]).path@) {
                Some((p, id)) => opt_view(out@[j].provider) == Some(p) && opt_view(out@[j].provider_id) == Some(id),
                None => out@[j].provider is None && out@[j].provider_id is None,
            } by {
                if j < k {
                    assert(out@[j] == before[j]);
                } else if j > k {
                    assert(out@[j] == before[j - 1]);
                }
            }
        }
    }
    assert(rest@.map_values(|i: WallpaperItem| item_view(i)) =~= Seq::<(Seq<char>, Seq<char>, Seq<char>, SourceKind)>::empty());
    assert(out@ + rest@ =~= out@);
    out
}


// ── The first library ────────────────────────────────────────────────────────

/// A folder that may become a source, with what the file system says of it.
#[derive(Debug)]
pub struct DetectedFolder {
    pub kind: SourceKind,
    pub path: String,
    pub name: String,
    pub normalized: String,
    pub is_dir: bool,
}

pub open spec fn folder_view(f: DetectedFolder) -> (SourceKind, Seq<char>, Seq<char>, bool) {
    (f.kind, f.name@, f.normalized@, f.is_dir)
}

pub open spec fn candidate_view(c: (SourceKind, String, &'static str)) -> (SourceKind, Seq<char>, Seq<char>) {
    (c.0, c.1@, c.2@)
}

/// The folders that a new library looks for: KDE's user wallpapers (in the
/// data folder), KDE's system wallpapers, the system backgrounds, and
/// `Wallpapers` in the pictures folder.
pub open spec fn candidates_of(data_dir: Option<Seq<char>>, pictures: Option<Seq<char>>) -> Seq<
    (SourceKind, Seq<char>, Seq<char>),
> {
    (match data_dir {
        Some(d) => seq![(SourceKind::KdeUser, path::join(d, "wallpapers"@), "KDE user wallpapers"@)],
        None => Seq::empty(),
    }) + seq![
        (SourceKind::KdeSystem, "/usr/share/wallpapers"@, "KDE system wallpapers"@),
        (SourceKind::SystemBackgrounds, "/usr/share/backgrounds"@, "System backgrounds"@),
    ] + (match pictures {
        Some(p) => seq![(SourceKind::UserFolder, path::join(p, "Wallpapers"@), "My Wallpapers"@)],
        None => Seq::empty(),
    })
}

pub fn detected_candidates(data_dir: Option<&str>, pictures: Option<&str>) -> (r: Vec<(SourceKind, String, &'static str)>)
    ensures
        r@.map_values(|c: (SourceKind, String, &'static str)| candidate_view(c)) == candidates_of(
            opt_str(data_dir),
            opt_str(pictures),
        ),
{
    let mut r: Vec<(SourceKind, String, &'static str)> = Vec::new();
    if let Some(d) = data_dir {
        r.push((SourceKind::KdeUser, path::join_exec(d, "wallpapers"), "KDE user wallpapers"));
    }
    r.push((SourceKind::KdeSystem, String::from_str("/usr/share/wallpapers"), "KDE system wallpapers"));
    r.push((SourceKind::SystemBackgrounds, String::from_str("/usr/share/backgrounds"), "System backgrounds"));
    if let Some(p) = pictures {
        r.push((SourceKind::UserFolder, path::join_exec(p, "Wallpapers"), "My Wallpapers"));
    }
    assert(r@.map_values(|c: (SourceKind, String, &'static str)| candidate_view(c)) =~= candidates_of(
        opt_str(data_dir),
        opt_str(pictures),
    ));
    r
}

/// The detected folders registered in order: a folder is added where
/// it exists, is not the pictures folder itself, and was not added before;
/// only a user folder can be removed.
pub open spec fn detected_sources(
    start: (Seq<SourceView>, Seq<Seq<char>>),
    fs: Seq<(SourceKind, Seq<char>, Seq<char>, bool)>,
    pictures_root: Option<Seq<char>>,
) -> (Seq<SourceView>, Seq<Seq<char>>)
    decreases fs.len(),
{
    if fs.len() == 0 {
        start
    } else {
        let st = detected_sources(start, fs.drop_last(), pictures_root);
        let f = fs.last();
        if pictures_root == Some(f.2) || !f.3 || st.1.contains(f.2) {
            st
        } else {
            (
                st.0.push(source_of(f.0, f.2, f.1, true, f.0 == SourceKind::UserFolder)),
                st.1.push(f.2),
            )
        }
    }
}

/// `default_library`: downloads go to `root` (whose canonical form is
/// `root_normalized`); its sources are the downloads folder and the detected
/// folders.
pub fn default_library(
    root: &str,
    root_normalized: &str,
    folders: &Vec<DetectedFolder>,
    pictures_normalized: Option<&str>,
) -> (r: WallpaperLibrary)
    ensures
        r.wf(),
        r.download_root@ == root@,
        r.provider_records@.len() == 0,
        !r.legacy_folders_migrated,
        !r.legacy_history_migrated,
        sources_view(r.sources@) == detected_sources(
            (
                seq![source_of(SourceKind::MatugenDownloads, root_normalized@, "Matugen Studio Downloads"@, true, false)],
                seq![root_normalized@],
            ),
            folders@.map_values(|f: DetectedFolder| folder_view(f)),
            opt_str(pictures_normalized),
        ).0,
{
    let ghost fv = folders@.map_values(|f: DetectedFolder| folder_view(f));
    let first = source(SourceKind::MatugenDownloads, root_normalized, "Matugen Studio Downloads", true, false);
    let ghost start = (seq![first@], seq![root_normalized@]);
    let mut sources: Vec<WallpaperSource> = vec![first];
    let mut seen: Vec<String> = vec![String::from_str(root_normalized)];
    assert(sources_view(sources@) =~= start.0);
    assert(seen_view(seen@) =~= start.1);
    let mut i: usize = 0;
    while i < folders.len()
        invariant
            i <= folders.len(),
            fv == folders@.map_values(|f: DetectedFolder| folder_view(f)),
            (sources_view(sources@), seen_view(seen@)) == detected_sources(
                start,
                fv.take(i as int),
                opt_str(pictures_normalized),
            ),
        decreases folders.len() - i,
    {
        let f = &folders[i];
        assert(fv.take(i + 1).drop_last() =~= fv.take(i as int));
        assert(fv.take(i + 1).last() == folder_view(*f));
        let is_root = match pictures_normalized {
            Some(p) => crate::context::str_eq(p, f.normalized.as_str()),
            None => false,
        };
        if !is_root && f.is_dir {
            let mut known = false;
            let mut j: usize = 0;
            while j < seen.len()
                invariant
                    j <= seen.len(),
                    !known ==> forall|x: int| 0 <= x < j ==> #[trigger] seen@[x]@ != f.normalized@,
                    known ==> seen_view(seen@).contains(f.normalized@),
                decreases seen.len() - j,
            {
                if crate::context::str_eq(seen[j].as_str(), f.normalized.as_str()) {
                    known = true;
                    assert(seen_view(seen@)[j as int] == f.normalized@);
                }
                j = j + 1;
            }
            if !known {
                assert(!seen_view(seen@).contains(f.normalized@)) by {
                    if seen_view(seen@).contains(f.normalized@) {
                        let x = choose|x: int| 0 <= x < seen_view(seen@).len() && seen_view(seen@)[x] == f.normalized@;
                        assert(seen@[x]@ == f.normalized@);
                    }
                }
                let s = source(f.kind, f.normalized.as_str(), f.name.as_str(), true, f.kind == SourceKind::UserFolder);
                let ghost (sb, nb) = (sources_view(sources@), seen_view(seen@));
                sources.push(s);
                seen.push(f.normalized.clone());
                assert(sources_view(sources@) =~= sb.push(s@));
                assert(seen_view(seen@) =~= nb.push(f.normalized@));
            }
        }
        i = i + 1;
    }
    assert(fv.take(folders.len() as int) =~= fv);
    WallpaperLibrary {
        download_root: String::from_str(root),
        sources,
        provider_records: Vec::new(),
        legacy_folders_migrated: false,
        legacy_history_migrated: false,
    }
}

// ── Laws of the library ──────────────────────────────────────────────────────

/// At most one source is the downloads folder.
pub open spec fn at_most_one_downloads(vs: Seq<SourceView>) -> bool {
    forall|i: int, j: int|
        0 <= i < vs.len() && 0 <= j < vs.len() && (#[trigger] vs[i]).kind == SourceKind::MatugenDownloads
            && (#[trigger] vs[j]).kind == SourceKind::MatugenDownloads ==> i == j
}

/// No source is the downloads folder.
pub open spec fn no_downloads(vs: Seq<SourceView>) -> bool {
    forall|i: int| 0 <= i < vs.len() ==> (#[trigger] vs[i]).kind != SourceKind::MatugenDownloads
}

proof fn lemma_demote_leaves_no_downloads(vs: Seq<SourceView>)
    requires
        at_most_one_downloads(vs),
    ensures
        no_downloads(demote_downloads(vs)),
    decreases vs.len(),
{
    if vs.len() > 0 {
        if vs[0].kind == SourceKind::MatugenDownloads {
            let out = demote_downloads(vs);
            assert forall|i: int| 0 <= i < out.len() implies (#[trigger] out[i]).kind != SourceKind::MatugenDownloads by {
                if i > 0 {
                    assert(out[i] == vs[i]);
                }
            }
        } else {
            let rest = vs.drop_first();
            assert forall|i: int, j: int|
                0 <= i < rest.len() && 0 <= j < rest.len() && (#[trigger] rest[i]).kind == SourceKind::MatugenDownloads
                    && (#[trigger] rest[j]).kind == SourceKind::MatugenDownloads implies i == j by {
                assert(rest[i] == vs[i + 1] && rest[j] == vs[j + 1]);
            }
            lemma_demote_leaves_no_downloads(rest);
            let out = demote_downloads(vs);
            assert forall|i: int| 0 <= i < out.len() implies (#[trigger] out[i]).kind != SourceKind::MatugenDownloads by {
                if i > 0 {
                    assert(out[i] == demote_downloads(rest)[i - 1]);
                }
            }
        }
    }
}

proof fn lemma_keep_other_folders(vs: Seq<SourceView>, norms: Seq<Seq<char>>, new: Seq<char>)
    requires
        no_downloads(vs),
    ensures
        no_downloads(keep_other_folders(vs, norms, new)),
    decreases vs.len(),
{
    if vs.len() > 0 && norms.len() > 0 {
        let rest = vs.drop_first();
        assert forall|i: int| 0 <= i < rest.len() implies (#[trigger] rest[i]).kind != SourceKind::MatugenDownloads by {
            assert(rest[i] == vs[i + 1]);
        }
        lemma_keep_other_folders(rest, norms.drop_first(), new);
        let out = keep_other_folders(vs, norms, new);
        let tail = keep_other_folders(rest, norms.drop_first(), new);
        if norms[0] != new {
            assert forall|i: int| 0 <= i < out.len() implies (#[trigger] out[i]).kind != SourceKind::MatugenDownloads by {
                if i > 0 {
                    assert(out[i] == tail[i - 1]);
                }
            }
        }
    }
}

proof fn lemma_demote_facts(vs: Seq<SourceView>)
    requires
        at_most_one_downloads(vs),
    ensures
        demote_downloads(vs).len() == vs.len(),
        forall|d: int| 0 <= d < vs.len() ==> #[trigger] demote_downloads(vs)[d] == (if vs[d].kind
            == SourceKind::MatugenDownloads {
            SourceView {
                kind: SourceKind::DownloadArchive,
                removable: false,
                display_name: "Previous Matugen downloads"@,
                ..vs[d]
            }
        } else {
            vs[d]
        }),
    decreases vs.len(),
{
    if vs.len() > 0 && vs[0].kind != SourceKind::MatugenDownloads {
        let rest = vs.drop_first();
        assert forall|i: int, j: int|
            0 <= i < rest.len() && 0 <= j < rest.len() && (#[trigger] rest[i]).kind == SourceKind::MatugenDownloads
                && (#[trigger] rest[j]).kind == SourceKind::MatugenDownloads implies i == j by {
            assert(rest[i] == vs[i + 1] && rest[j] == vs[j + 1]);
        }
        lemma_demote_facts(rest);
        assert forall|d: int| 0 <= d < vs.len() implies #[trigger] demote_downloads(vs)[d] == (if vs[d].kind
            == SourceKind::MatugenDownloads {
            SourceView {
                kind: SourceKind::DownloadArchive,
                removable: false,
                display_name: "Previous Matugen downloads"@,
                ..vs[d]
            }
        } else {
            vs[d]
        }) by {
            if d > 0 {
                assert(demote_downloads(vs)[d] == demote_downloads(rest)[d - 1]);
                assert(rest[d - 1] == vs[d]);
            }
        }
    } else if vs.len() > 0 {
        assert forall|d: int| 0 < d < vs.len() implies vs[d].kind != SourceKind::MatugenDownloads by {
            if vs[d].kind == SourceKind::MatugenDownloads {
                assert(vs[0].kind == SourceKind::MatugenDownloads);
            }
        }
    }
}

proof fn lemma_keep_other_folders_from(xs: Seq<SourceView>, norms: Seq<Seq<char>>, new: Seq<char>)
    ensures
        forall|j: int| 0 <= j < keep_other_folders(xs, norms, new).len() ==> exists|i: int|
            0 <= i < xs.len() && i < norms.len() && norms[i] != new && #[trigger] keep_other_folders(xs, norms, new)[j]
                == xs[i],
    decreases xs.len(),
{
    if xs.len() > 0 && norms.len() > 0 {
        let rest = keep_other_folders(xs.drop_first(), norms.drop_first(), new);
        lemma_keep_other_folders_from(xs.drop_first(), norms.drop_first(), new);
        let out = keep_other_folders(xs, norms, new);
        assert forall|j: int| 0 <= j < out.len() implies exists|i: int|
            0 <= i < xs.len() && i < norms.len() && norms[i] != new && #[trigger] out[j] == xs[i] by {
            if norms[0] != new && j == 0 {
                assert(out[0] == xs[0]);
            } else {
                let jj = if norms[0] != new {
                    j - 1
                } else {
                    j
                };
                assert(out[j] == rest[jj]);
                let i = choose|i: int|
                    0 <= i < xs.drop_first().len() && i < norms.drop_first().len() && norms.drop_first()[i] != new
                        && #[trigger] rest[jj] == xs.drop_first()[i];
                assert(xs.drop_first()[i] == xs[i + 1]);
                assert(norms.drop_first()[i] == norms[i + 1]);
            }
        }
    }
}

/// After the download root changes, the library has one downloads source,
/// the first, at the new root and not removable: the earlier one, where there
/// was at most one, became a non-removable archive at its own folder, and
/// every other source kept is one whose canonical folder is not the new root.
pub proof fn lemma_single_downloads_source(vs: Seq<SourceView>, norms: Seq<Seq<char>>, new: Seq<char>)
    requires
        at_most_one_downloads(vs),
    ensures
        ({
            let out = seq![source_of(SourceKind::MatugenDownloads, new, "Matugen Studio Downloads"@, true, false)]
                + keep_other_folders(demote_downloads(vs), norms, new);
            &&& out[0].kind == SourceKind::MatugenDownloads
            &&& out[0].path == new
            &&& !out[0].removable
            &&& forall|i: int| 1 <= i < out.len() ==> (#[trigger] out[i]).kind != SourceKind::MatugenDownloads
            &&& forall|i: int| 1 <= i < out.len() ==> exists|d: int|
                0 <= d < vs.len() && d < norms.len() && norms[d] != new && #[trigger] out[i] == demote_downloads(vs)[d]
            &&& forall|d: int| 0 <= d < vs.len() && vs[d].kind == SourceKind::MatugenDownloads ==> {
                &&& (#[trigger] demote_downloads(vs)[d]).kind == SourceKind::DownloadArchive
                &&& !demote_downloads(vs)[d].removable
                &&& demote_downloads(vs)[d].path == vs[d].path
            }
        }),
{
    lemma_demote_facts(vs);
    lemma_keep_other_folders_from(demote_downloads(vs), norms, new);
    lemma_demote_leaves_no_downloads(vs);
    lemma_keep_other_folders(demote_downloads(vs), norms, new);
    let kept = keep_other_folders(demote_downloads(vs), norms, new);
    let out = seq![source_of(SourceKind::MatugenDownloads, new, "Matugen Studio Downloads"@, true, false)] + kept;
    assert forall|i: int| 1 <= i < out.len() implies (#[trigger] out[i]).kind != SourceKind::MatugenDownloads by {
        assert(out[i] == kept[i - 1]);
    }
    assert forall|i: int| 1 <= i < out.len() implies exists|d: int|
        0 <= d < vs.len() && d < norms.len() && norms[d] != new && #[trigger] out[i] == demote_downloads(vs)[d] by {
        assert(out[i] == kept[i - 1]);
    }
}

/// The folders found for a new library never include the pictures folder
/// itself: only the sources it starts with can have that path.
pub proof fn lemma_pictures_root_never_detected(
    start: (Seq<SourceView>, Seq<Seq<char>>),
    fs: Seq<(SourceKind, Seq<char>, Seq<char>, bool)>,
    pictures_root: Seq<char>,
)
    ensures
        detected_sources(start, fs, Some(pictures_root)).0.len() >= start.0.len(),
        forall|i: int|
            start.0.len() <= i < detected_sources(start, fs, Some(pictures_root)).0.len() ==> (#[trigger] detected_sources(
                start,
                fs,
                Some(pictures_root),
            ).0[i]).path != pictures_root,
        forall|i: int| 0 <= i < start.0.len() ==> detected_sources(start, fs, Some(pictures_root)).0[i] == start.0[i],
    decreases fs.len(),
{
    if fs.len() > 0 {
        lemma_pictures_root_never_detected(start, fs.drop_last(), pictures_root);
    }
}

/// A repair only drops paths: each path of a record is kept or cleared, a
/// cached copy never becomes the saved one, and what is kept is an image
/// (the applied copy only under the managed active folder).
pub proof fn lemma_repair_only_drops(r: RecordView, c: RecordCheck, active_root: Option<Seq<char>>)
    ensures
        ({
            let out = repaired(r, c, active_root);
            &&& out.cache_path == r.cache_path || out.cache_path is None
            &&& out.active_path == r.active_path || out.active_path is None
            &&& out.saved_path == r.saved_path || out.saved_path is None
            &&& out.provider == r.provider && out.provider_id == r.provider_id && out.thumb == r.thumb
            &&& out.cache_path is Some ==> c.cache_is_image
            &&& out.saved_path is Some ==> c.saved_is_image
            &&& out.active_path is Some ==> c.active_is_image && active_root is Some && opt_view(
                c.active_normalized,
            ) is Some && path::path_starts_with(opt_view(c.active_normalized)->0, active_root->0)
        }),
{
}

/// Migrating the old history never changes a record that is already there;
/// every entry with a safe id ends up with a record, and each record it adds
/// is the entry's own: Wallhaven, no saved or applied copy, its thumbnail,
/// and its file as the cached copy only where that was found to be a live
/// image in the cache.
pub proof fn lemma_migration_keeps_records(
    m: Map<Seq<char>, RecordView>,
    es: Seq<(Seq<char>, Seq<char>, Option<Seq<char>>, Option<u64>)>,
    cached: Seq<bool>,
)
    ensures
        forall|k: Seq<char>| m.dom().contains(k) ==> #[trigger] migrated(m, es, cached).dom().contains(k)
            && migrated(m, es, cached)[k] == m[k],
        forall|k: Seq<char>|
            #[trigger] migrated(m, es, cached).dom().contains(k) && !m.dom().contains(k) ==> migrated(m, es, cached)[k].saved_path
                is None && migrated(m, es, cached)[k].active_path is None,
        forall|k: Seq<char>|
            #[trigger] migrated(m, es, cached).dom().contains(k) && !m.dom().contains(k) ==> exists|i: int|
                0 <= i < es.len() && safe_segment_of(#[trigger] es[i].0) && k == record_key_of("wallhaven"@, es[i].0)
                    && migrated(m, es, cached)[k] == legacy_record(es[i], cached[i]),
        cached.len() >= es.len() ==> forall|i: int|
            0 <= i < es.len() && safe_segment_of(#[trigger] es[i].0) ==> migrated(m, es, cached).dom().contains(
                record_key_of("wallhaven"@, es[i].0),
            ),
    decreases es.len(),
{
    if es.len() > 0 && cached.len() >= es.len() {
        let prev = es.drop_last();
        lemma_migration_keeps_records(m, prev, cached);
        let before = migrated(m, prev, cached);
        let after = migrated(m, es, cached);
        let n = es.len() - 1;
        assert forall|k: Seq<char>| #[trigger] after.dom().contains(k) && !m.dom().contains(k) implies exists|i: int|
            0 <= i < es.len() && safe_segment_of(#[trigger] es[i].0) && k == record_key_of("wallhaven"@, es[i].0)
                && after[k] == legacy_record(es[i], cached[i]) by {
            if before.dom().contains(k) {
                let i = choose|i: int|
                    0 <= i < prev.len() && safe_segment_of(#[trigger] prev[i].0) && k == record_key_of("wallhaven"@, prev[i].0)
                        && before[k] == legacy_record(prev[i], cached[i]);
                assert(prev[i] == es[i]);
                assert(after[k] == before[k]);
            } else {
                assert(es[n] == es.last());
                assert(k == record_key_of("wallhaven"@, es[n].0));
            }
        }
        assert forall|i: int| 0 <= i < es.len() && safe_segment_of(#[trigger] es[i].0) implies after.dom().contains(
            record_key_of("wallhaven"@, es[i].0),
        ) by {
            if i < n {
                assert(prev[i] == es[i]);
            }
        }
    }
}

/// What is at a path, as the save steps see it, with the folder's regular
/// files given by their bytes.
pub open spec fn existing_in(files: Map<Seq<char>, Seq<u8>>, p: Seq<char>, bytes: Seq<u8>) -> ExistingFile {
    if !files.dom().contains(p) {
        ExistingFile::Missing
    } else if files[p] == bytes {
        ExistingFile::SameBytes
    } else {
        ExistingFile::OtherBytes
    }
}

/// A save as `save_at_base` and then `save_at_alternate` decide it, on
/// files given by their bytes: the path that holds the bytes afterwards and
/// the files then, or nothing on a collision.
pub open spec fn save_into(
    files: Map<Seq<char>, Seq<u8>>,
    base: Seq<char>,
    alternate: Seq<char>,
    bytes: Seq<u8>,
) -> Option<(Seq<char>, Map<Seq<char>, Seq<u8>>)> {
    match existing_in(files, base, bytes) {
        ExistingFile::Missing => Some((base, files.insert(base, bytes))),
        ExistingFile::SameBytes => Some((base, files)),
        _ => match existing_in(files, alternate, bytes) {
            ExistingFile::Missing => Some((alternate, files.insert(alternate, bytes))),
            ExistingFile::SameBytes => Some((alternate, files)),
            _ => None,
        },
    }
}

/// Saving never overwrites a file: afterwards the path holds the bytes,
/// every file that was there keeps its bytes, and saving the same bytes
/// again changes nothing; a save is refused only where both names hold
/// other bytes.
pub proof fn lemma_save_never_overwrites(
    files: Map<Seq<char>, Seq<u8>>,
    base: Seq<char>,
    alternate: Seq<char>,
    bytes: Seq<u8>,
)
    requires
        base != alternate,
    ensures
        save_into(files, base, alternate, bytes) matches Some((p, after)) ==> {
            &&& p == base || p == alternate
            &&& after.dom().contains(p) && after[p] == bytes
            &&& forall|q: Seq<char>| #[trigger] files.dom().contains(q) ==> after.dom().contains(q) && after[q] == files[q]
            &&& save_into(after, base, alternate, bytes) == Some((p, after))
        },
        save_into(files, base, alternate, bytes) is None <==> (files.dom().contains(base) && files[base] != bytes
            && files.dom().contains(alternate) && files[alternate] != bytes),
{
    match save_into(files, base, alternate, bytes) {
        Some((p, after)) => {
            if p == alternate && after != files {
                assert(after[base] == files[base]);
            }
        },
        None => {},
    }
}

/// Two different pictures saved under one id: the first takes the plain
/// name, saving it again changes nothing, and the second goes to its own
/// alternate name (`alternate_name`, with its digest) while the first keeps
/// its bytes.
pub proof fn lemma_save_collision(
    files: Map<Seq<char>, Seq<u8>>,
    dir: Seq<char>,
    id: Seq<char>,
    ext: Seq<char>,
    a: Seq<u8>,
    b: Seq<u8>,
)
    requires
        a != b,
        !files.dom().contains(base_name(dir, id, ext)),
        !files.dom().contains(alternate_name(dir, id, ext, b)),
        base_name(dir, id, ext) != alternate_name(dir, id, ext, a),
        base_name(dir, id, ext) != alternate_name(dir, id, ext, b),
    ensures
        ({
            let base = base_name(dir, id, ext);
            let alt_a = alternate_name(dir, id, ext, a);
            let alt_b = alternate_name(dir, id, ext, b);
            let f1 = files.insert(base, a);
            let f2 = f1.insert(alt_b, b);
            &&& save_into(files, base, alt_a, a) == Some((base, f1))
            &&& save_into(f1, base, alt_a, a) == Some((base, f1))
            &&& save_into(f1, base, alt_b, b) == Some((alt_b, f2))
            &&& f2[base] == a && f2[alt_b] == b
        }),
{
}

} // verus!
