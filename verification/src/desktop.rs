//! The desktop side of wallpapers: the folder listing, the freedesktop.org
//! thumbnail cache (file URIs, cache paths, whether a cached thumbnail is
//! current), and the commands that hand a wallpaper to Plasma.
use vstd::prelude::*;
use vstd::utf8::encode_utf8;
use crate::context::{opt_view, str_eq};
use crate::path;
use crate::text;
use crate::wallpaper::{
    hex_lower, lemma_text_lt_asymmetric, lemma_text_lt_total, lemma_text_lt_transitive, md5_digest, md5_of_bytes,
    push_hex_lower, text_lt, text_lt_exec,
};

verus! {

/// The outcome of one thumbnail request.
#[derive(Debug)]
pub struct ThumbnailResult {
    pub image_path: String,
    pub thumbnail_path: Option<String>,
    pub error: Option<String>,
}

impl ThumbnailResult {
    /// The thumbnail's path where it was made or found, else the error.
    pub fn from_outcome(image_path: String, outcome: Result<String, String>) -> (r: ThumbnailResult)
        ensures
            r.image_path == image_path,
            match outcome {
                Ok(t) => r.thumbnail_path == Some(t) && r.error is None,
                Err(e) => r.thumbnail_path is None && r.error == Some(e),
            },
    {
        match outcome {
            Ok(t) => ThumbnailResult { image_path, thumbnail_path: Some(t), error: None },
            Err(e) => ThumbnailResult { image_path, thumbnail_path: None, error: Some(e) },
        }
    }
}

// ── File URIs ────────────────────────────────────────────────────────────────

/// The bytes a file URI encodes: the controls (`0x00` to `0x1F`, `0x7F`) and
/// space `"` `#` `%` `<` `>` `?` `` ` `` `{` `}`.
pub open spec fn path_encode_set(b: u8) -> bool {
    ||| b < 0x20
    ||| b == 0x7F
    ||| b == 0x20
    ||| b == 0x22
    ||| b == 0x23
    ||| b == 0x25
    ||| b == 0x3C
    ||| b == 0x3E
    ||| b == 0x3F
    ||| b == 0x60
    ||| b == 0x7B
    ||| b == 0x7D
}

/// One byte of `utf8_percent_encode`: `%XX` (upper-case hexadecimal) for a
/// byte that is not ASCII or is in the set, else the byte itself.
pub open spec fn encoded_byte(b: u8) -> Seq<char> {
    if b >= 0x80 || path_encode_set(b) {
        seq!['%'] + text::hex2(b)
    } else {
        seq![b as char]
    }
}

pub open spec fn percent_encoded(bytes: Seq<u8>) -> Seq<char>
    decreases bytes.len(),
{
    if bytes.len() == 0 {
        Seq::empty()
    } else {
        percent_encoded(bytes.drop_last()) + encoded_byte(bytes.last())
    }
}

/// `percent_encoding::percent_encode_byte`: `%` and the byte in two
/// upper-case hexadecimal digits.
fn percent_encode_byte(b: u8) -> (r: String)
    ensures
        r@ == seq!['%'] + text::hex2(b),
{
    let mut out: Vec<char> = Vec::new();
    out.push('%');
    text::push_hex2(&mut out, b);
    assert(out@ =~= seq!['%'] + text::hex2(b));
    text::string_of(&out)
}

/// `utf8_percent_encode` with the file URI set: a byte is encoded where it is
/// not ASCII or is in the set.
fn percent_encode_path(path: &str) -> (r: String)
    ensures
        r@ == percent_encoded(encode_utf8(path@)),
{
    let bytes = path.as_bytes();
    let mut out: Vec<char> = Vec::new();
    let mut i: usize = 0;
    while i < bytes.len()
        invariant
            i <= bytes.len(),
            bytes@ == encode_utf8(path@),
            out@ == percent_encoded(bytes@.take(i as int)),
        decreases bytes.len() - i,
    {
        assert(bytes@.take(i + 1).drop_last() =~= bytes@.take(i as int));
        let b = bytes[i];
        if b >= 0x80 || b < 0x20 || b == 0x7F || b == 0x20 || b == 0x22 || b == 0x23 || b == 0x25 || b == 0x3C
            || b == 0x3E || b == 0x3F || b == 0x60 || b == 0x7B || b == 0x7D {
            let e = percent_encode_byte(b);
            text::push_str(&mut out, e.as_str());
        } else {
            out.push(b as char);
        }
        i = i + 1;
        assert(out@ =~= percent_encoded(bytes@.take(i as int)));
    }
    assert(bytes@.take(bytes.len() as int) =~= bytes@);
    text::string_of(&out)
}

/// `file_uri`: `file://` and the absolute path (a relative one taken from the
/// working folder), percent-encoded.
pub open spec fn file_uri_of(p: Seq<char>, current_dir: Seq<char>) -> Seq<char> {
    let absolute = if p.len() > 0 && p[0] == '/' {
        p
    } else {
        path::join(current_dir, p)
    };
    "file://"@ + percent_encoded(encode_utf8(absolute))
}

pub fn file_uri(path_text: &str, current_dir: &str) -> (r: String)
    ensures
        r@ == file_uri_of(path_text@, current_dir@),
{
    let v = text::chars_of(path_text);
    let absolute = if v.len() > 0 && v[0] == '/' {
        String::from_str(path_text)
    } else {
        path::join_exec(current_dir, path_text)
    };
    let encoded = percent_encode_path(absolute.as_str());
    let mut out = text::chars_of("file://");
    text::push_str(&mut out, encoded.as_str());
    text::string_of(&out)
}

// ── The thumbnail cache ──────────────────────────────────────────────────────

/// The name of a thumbnail: the MD5 of its URI in lower-case hexadecimal.
pub open spec fn thumbnail_hash_of(uri: Seq<char>) -> Seq<char> {
    hex_lower(md5_digest(encode_utf8(uri)))
}

pub fn thumbnail_hash(uri: &str) -> (r: String)
    ensures
        r@ == thumbnail_hash_of(uri@),
{
    let digest = md5_of_bytes(uri.as_bytes());
    let mut out: Vec<char> = Vec::new();
    push_hex_lower(&mut out, &digest);
    assert(out@ =~= thumbnail_hash_of(uri@));
    text::string_of(&out)
}

/// `DIR/NAME.png` under the thumbnail cache.
pub open spec fn thumbnail_in(cache: Seq<char>, dir: Seq<char>, hash: Seq<char>) -> Seq<char> {
    path::join(path::join(cache, dir), hash + ".png"@)
}

fn thumbnail_in_exec(cache: &str, dir: &str, hash: &str) -> (r: String)
    ensures
        r@ == thumbnail_in(cache@, dir@, hash@),
{
    let d = path::join_exec(cache, dir);
    let mut name = text::chars_of(hash);
    text::push_str(&mut name, ".png");
    path::join_exec(d.as_str(), text::string_of(&name).as_str())
}

/// Where a current thumbnail may already be, in the order they are tried.
pub open spec fn thumbnail_candidates_of(cache: Seq<char>, hash: Seq<char>) -> Seq<Seq<char>> {
    seq![
        thumbnail_in(cache, "large"@, hash),
        thumbnail_in(cache, "x-large"@, hash),
        thumbnail_in(cache, "xx-large"@, hash),
        thumbnail_in(cache, "normal"@, hash),
    ]
}

pub fn thumbnail_candidates(cache: &str, hash: &str) -> (r: Vec<String>)
    ensures
        r@.map_values(|s: String| s@) == thumbnail_candidates_of(cache@, hash@),
{
    let mut r: Vec<String> = Vec::new();
    r.push(thumbnail_in_exec(cache, "large", hash));
    r.push(thumbnail_in_exec(cache, "x-large", hash));
    r.push(thumbnail_in_exec(cache, "xx-large", hash));
    r.push(thumbnail_in_exec(cache, "normal", hash));
    assert(r@.map_values(|s: String| s@) =~= thumbnail_candidates_of(cache@, hash@));
    r
}

/// Where a new thumbnail is written.
pub fn new_thumbnail_path(cache: &str, hash: &str) -> (r: String)
    ensures
        r@ == thumbnail_in(cache@, "large"@, hash@),
{
    thumbnail_in_exec(cache, "large", hash)
}

/// Text chunks as keyword and text.
pub open spec fn pairs_view(v: Seq<(String, String)>) -> Seq<(Seq<char>, Seq<char>)> {
    v.map_values(|p: (String, String)| (p.0@, p.1@))
}

/// The value of the last text chunk with the key (later chunks replace
/// earlier ones).
pub open spec fn chunk_value(chunks: Seq<(Seq<char>, Seq<char>)>, key: Seq<char>) -> Option<Seq<char>>
    decreases chunks.len(),
{
    if chunks.len() == 0 {
        None
    } else if chunks.last().0 == key {
        Some(chunks.last().1)
    } else {
        chunk_value(chunks.drop_last(), key)
    }
}

fn chunk_value_exec(chunks: &Vec<(String, String)>, key: &str) -> (r: Option<String>)
    ensures
        opt_view(r) == chunk_value(pairs_view(chunks@), key@),
{
    let ghost all = pairs_view(chunks@);
    let mut i: usize = chunks.len();
    assert(all.take(i as int) =~= all);
    while i > 0
        invariant
            i <= chunks.len(),
            all == pairs_view(chunks@),
            chunk_value(all, key@) == chunk_value(all.take(i as int), key@),
        decreases i,
    {
        assert(all.take(i as int).last() == all[i - 1]);
        assert(all.take(i as int).drop_last() =~= all.take(i - 1));
        if str_eq(chunks[i - 1].0.as_str(), key) {
            return Some(chunks[i - 1].1.clone());
        }
        i = i - 1;
    }
    None
}

/// A cached thumbnail is current when its text chunks name the URI and the
/// modification time of the image.
pub open spec fn thumbnail_current_of(chunks: Seq<(Seq<char>, Seq<char>)>, uri: Seq<char>, modified: u64) -> bool {
    &&& chunk_value(chunks, "Thumb::URI"@) == Some(uri)
    &&& match chunk_value(chunks, "Thumb::MTime"@) {
        Some(m) => text::parse_unsigned(m, u64::MAX as nat) == Some(modified as nat),
        None => false,
    }
}

pub fn thumbnail_is_current(chunks: &Vec<(String, String)>, uri: &str, modified: u64) -> (r: bool)
    ensures
        r == thumbnail_current_of(pairs_view(chunks@), uri@, modified),
{
    let u = match chunk_value_exec(chunks, "Thumb::URI") {
        Some(u) => u,
        None => return false,
    };
    if !str_eq(u.as_str(), uri) {
        return false;
    }
    match chunk_value_exec(chunks, "Thumb::MTime") {
        Some(m) => match text::parse_unsigned_exec(&text::chars_of(m.as_str()), u64::MAX) {
            Some(v) => v == modified,
            None => false,
        },
        None => false,
    }
}

/// The text chunks that the `png` decoder lists for a PNG file, in its
/// order (plain, then compressed, then international), or `None` where the
/// bytes do not decode.
pub uninterp spec fn png_text_chunks(bytes: Seq<u8>) -> Option<Seq<(Seq<char>, Seq<char>)>>;

/// `png::Decoder::read_info` on the bytes, then its text chunks: each
/// keyword with its text; a compressed or international chunk whose text
/// does not decode is passed over by the decoder's own `get_text` error.
/// The result is what `png_text_chunks` names.
#[verifier::external_body]
fn read_png_text_chunks(bytes: &[u8]) -> (r: Option<Vec<(String, String)>>)
    ensures
        r matches Some(v) ==> png_text_chunks(bytes@) == Some(pairs_view(v@)),
        r is None ==> png_text_chunks(bytes@) is None,
{
    let reader = png::Decoder::new(std::io::Cursor::new(bytes)).read_info().ok()?;
    let info = reader.info();
    let plain = info.uncompressed_latin1_text.iter().map(|c| (c.keyword.clone(), c.text.clone()));
    let zipped = info.compressed_latin1_text.iter().flat_map(|c| c.get_text().map(|t| (c.keyword.clone(), t)));
    let intl = info.utf8_text.iter().flat_map(|c| c.get_text().map(|t| (c.keyword.clone(), t)));
    Some(plain.chain(zipped).chain(intl).collect())
}

/// Whether the bytes of a cached thumbnail are current for the image: they
/// decode as PNG and their chunks name the URI and modification time.
pub fn thumbnail_bytes_current(bytes: &[u8], uri: &str, modified: u64) -> (r: bool)
    ensures
        r == match png_text_chunks(bytes@) {
            Some(c) => thumbnail_current_of(c, uri@, modified),
            None => false,
        },
{
    match read_png_text_chunks(bytes) {
        Some(chunks) => thumbnail_is_current(&chunks, uri, modified),
        None => false,
    }
}

/// The edge, in pixels, that a thumbnail fits into.
pub open spec fn thumbnail_size() -> u32 {
    256
}

/// The freedesktop text chunks of a new thumbnail, in order.
pub open spec fn thumbnail_chunks_of(uri: Seq<char>, mtime: u64, size: u64) -> Seq<(Seq<char>, Seq<char>)> {
    seq![
        ("Thumb::URI"@, uri),
        ("Thumb::MTime"@, text::dec(mtime as nat)),
        ("Thumb::Size"@, text::dec(size as nat)),
        ("Software"@, "Matugen Studio"@),
    ]
}

fn dec_string(n: u64) -> (r: String)
    ensures
        r@ == text::dec(n as nat),
{
    let mut out: Vec<char> = Vec::new();
    text::push_dec(&mut out, n);
    assert(out@ =~= text::dec(n as nat));
    text::string_of(&out)
}

pub fn thumbnail_chunks(uri: &str, mtime: u64, size: u64) -> (r: Vec<(String, String)>)
    ensures
        pairs_view(r@) == thumbnail_chunks_of(uri@, mtime, size),
{
    let mut r: Vec<(String, String)> = Vec::new();
    r.push((String::from_str("Thumb::URI"), String::from_str(uri)));
    r.push((String::from_str("Thumb::MTime"), dec_string(mtime)));
    r.push((String::from_str("Thumb::Size"), dec_string(size)));
    r.push((String::from_str("Software"), String::from_str("Matugen Studio")));
    proof {
        reveal_strlit("Thumb::URI");
        reveal_strlit("Thumb::MTime");
        reveal_strlit("Thumb::Size");
        reveal_strlit("Software");
        reveal_strlit("Matugen Studio");
    }
    assert(pairs_view(r@) =~= thumbnail_chunks_of(uri@, mtime, size));
    r
}

/// What the `image` crate makes of a picture's bytes, decoded as the format
/// its file extension names, scaled to fit a square of the edge (keeping
/// its aspect) and converted to 8-bit RGBA: width, height and pixels, or
/// the error's text.
pub uninterp spec fn thumbnail_pixels(bytes: Seq<u8>, extension: Seq<char>, edge: u32) -> Result<(u32, u32, Seq<u8>), Seq<char>>;

/// `image::ImageReader` with the format of the extension (where `image`
/// knows it), `decode`, `thumbnail` and `to_rgba8`. The result is what
/// `thumbnail_pixels` names. (With an extension that `image` does not know,
/// the reader has no format and the error text is the reader's own.)
#[verifier::external_body]
fn decode_thumbnail(bytes: &[u8], extension: &str, edge: u32) -> (r: Result<(u32, u32, Vec<u8>), String>)
    ensures
        r matches Ok(t) ==> (thumbnail_pixels(bytes@, extension@, edge) matches Ok(u) && u == (t.0, t.1, t.2@)),
        r matches Err(e) ==> (thumbnail_pixels(bytes@, extension@, edge) matches Err(f) && f == e@),
{
    let mut reader = image::ImageReader::new(std::io::Cursor::new(bytes));
    if let Some(format) = image::ImageFormat::from_extension(extension) {
        reader.set_format(format);
    }
    let picture = reader.decode().map_err(|e| e.to_string())?.thumbnail(edge, edge).to_rgba8();
    Ok((picture.width(), picture.height(), picture.into_raw()))
}

/// What `png::Encoder` writes for 8-bit RGBA pixels of the size with the
/// text chunks, or the error's text.
pub uninterp spec fn png_encoded(width: u32, height: u32, pixels: Seq<u8>, chunks: Seq<(Seq<char>, Seq<char>)>) -> Result<Seq<u8>, Seq<char>>;

/// `png::Encoder` into memory: RGBA, eight bits, each text chunk with
/// `add_text_chunk`, then the header and the image data. The result is what
/// `png_encoded` names.
#[verifier::external_body]
fn encode_png(width: u32, height: u32, pixels: &[u8], chunks: &Vec<(String, String)>) -> (r: Result<Vec<u8>, String>)
    ensures
        r matches Ok(v) ==> (png_encoded(width, height, pixels@, pairs_view(chunks@)) matches Ok(w) && w == v@),
        r matches Err(e) ==> (png_encoded(width, height, pixels@, pairs_view(chunks@)) matches Err(f) && f == e@),
{
    let mut out: Vec<u8> = Vec::new();
    let mut encoder = png::Encoder::new(&mut out, width, height);
    encoder.set_color(png::ColorType::Rgba);
    encoder.set_depth(png::BitDepth::Eight);
    for (key, value) in chunks {
        encoder.add_text_chunk(key.clone(), value.clone()).map_err(|e| e.to_string())?;
    }
    let mut writer = encoder.write_header().map_err(|e| e.to_string())?;
    writer.write_image_data(pixels).map_err(|e| e.to_string())?;
    drop(writer);
    Ok(out)
}

/// The thumbnail file for a picture: its bytes scaled to fit the thumbnail
/// size, written as PNG with the freedesktop chunks for its URI,
/// modification time and size.
pub open spec fn thumbnail_png_of(bytes: Seq<u8>, image_path: Seq<char>, uri: Seq<char>, mtime: u64, size: u64) -> Result<Seq<u8>, Seq<char>> {
    let extension = match path::extension(image_path) {
        Some(e) => e,
        None => Seq::empty(),
    };
    match thumbnail_pixels(bytes, extension, thumbnail_size()) {
        Err(e) => Err(e),
        Ok(t) => png_encoded(t.0, t.1, t.2, thumbnail_chunks_of(uri, mtime, size)),
    }
}

pub fn thumbnail_png(bytes: &[u8], image_path: &str, uri: &str, mtime: u64, size: u64) -> (r: Result<Vec<u8>, String>)
    ensures
        match r {
            Ok(v) => thumbnail_png_of(bytes@, image_path@, uri@, mtime, size) == Ok::<Seq<u8>, Seq<char>>(v@),
            Err(e) => thumbnail_png_of(bytes@, image_path@, uri@, mtime, size) == Err::<Seq<u8>, Seq<char>>(e@),
        },
{
    let extension = match path::extension_exec(image_path) {
        Some(e) => e,
        None => String::new(),
    };
    proof {
        assert(extension@ == match path::extension(image_path@) {
            Some(e) => e,
            None => Seq::<char>::empty(),
        });
    }
    let (width, height, pixels) = decode_thumbnail(bytes, extension.as_str(), 256)?;
    let chunks = thumbnail_chunks(uri, mtime, size);
    encode_png(width, height, pixels.as_slice(), &chunks)
}

// ── Listing a folder ─────────────────────────────────────────────────────────

/// A wallpaper file's extension, lower-cased: `jpg`, `jpeg`, `png` or `webp`.
/// (Only ASCII letters lower-case to these, so ASCII lower-casing decides as
/// `str::to_lowercase` does.)
pub open spec fn wallpaper_extension(p: Seq<char>) -> bool {
    match path::extension(p) {
        Some(e) => {
            let l = text::lower(e);
            l == "jpg"@ || l == "jpeg"@ || l == "png"@ || l == "webp"@
        },
        None => false,
    }
}

/// The paths with a wallpaper extension, in order.
pub open spec fn wallpaper_files(ps: Seq<Seq<char>>) -> Seq<Seq<char>>
    decreases ps.len(),
{
    if ps.len() == 0 {
        Seq::empty()
    } else if wallpaper_extension(ps.last()) {
        wallpaper_files(ps.drop_last()).push(ps.last())
    } else {
        wallpaper_files(ps.drop_last())
    }
}

pub open spec fn strings_view(v: Seq<String>) -> Seq<Seq<char>> {
    v.map_values(|s: String| s@)
}

/// Ascending, as `sort` orders strings.
pub open spec fn ascending(v: Seq<Seq<char>>) -> bool {
    forall|i: int, j: int| 0 <= i < j < v.len() ==> !text_lt(#[trigger] v[j], #[trigger] v[i])
}

fn wallpaper_extension_exec(p: &str) -> (r: bool)
    ensures
        r == wallpaper_extension(p@),
{
    match path::extension_exec(p) {
        Some(e) => {
            let l = text::lower_exec(&text::chars_of(e.as_str()));
            text::eq_str(&l, "jpg") || text::eq_str(&l, "jpeg") || text::eq_str(&l, "png") || text::eq_str(
                &l,
                "webp",
            )
        },
        None => false,
    }
}

/// The wallpapers among a folder's files: those with a wallpaper extension,
/// sorted.
pub fn wallpaper_listing(files: Vec<String>) -> (r: Vec<String>)
    ensures
        ascending(strings_view(r@)),
        strings_view(r@).to_multiset() == wallpaper_files(strings_view(files@)).to_multiset(),
{
    broadcast use vstd::seq_lib::group_to_multiset_ensures;

    let ghost fv = strings_view(files@);
    let mut kept: Vec<String> = Vec::new();
    let mut i: usize = 0;
    let mut files = files;
    assert(fv.take(0) =~= Seq::<Seq<char>>::empty());
    assert(strings_view(kept@) =~= Seq::<Seq<char>>::empty());
    while i < files.len()
        invariant
            i <= files.len(),
            fv == strings_view(files@),
            strings_view(kept@) == wallpaper_files(fv.take(i as int)),
        decreases files.len() - i,
    {
        assert(fv.take(i + 1).drop_last() =~= fv.take(i as int));
        assert(fv.take(i + 1).last() == files@[i as int]@);
        let ghost before = strings_view(kept@);
        if wallpaper_extension_exec(files[i].as_str()) {
            kept.push(files[i].clone());
            assert(strings_view(kept@) =~= before.push(files@[i as int]@));
        }
        i = i + 1;
    }
    assert(fv.take(files.len() as int) =~= fv);
    let ghost orig = strings_view(kept@);
    let mut rest = kept;
    let mut out: Vec<String> = Vec::new();
    assert(strings_view(out@) =~= Seq::<Seq<char>>::empty());
    while rest.len() > 0
        invariant
            ascending(strings_view(out@)),
            strings_view(out@).to_multiset().add(strings_view(rest@).to_multiset()) == orig.to_multiset(),
        decreases rest.len(),
    {
        let ghost rv = strings_view(rest@);
        let ghost ov = strings_view(out@);
        let item = rest.remove(0);
        assert(rv.remove(0) =~= strings_view(rest@));
        assert(rv[0] == item@);
        let pv = text::chars_of(item.as_str());
        let mut k: usize = 0;
        while k < out.len()
            invariant
                k <= out.len(),
                pv@ == item@,
                ov == strings_view(out@),
                forall|j: int| 0 <= j < k ==> !text_lt(item@, #[trigger] ov[j]),
            ensures
                k <= out.len(),
                forall|j: int| 0 <= j < k ==> !text_lt(item@, #[trigger] ov[j]),
                k < out.len() ==> text_lt(item@, ov[k as int]),
            decreases out.len() - k,
        {
            let ok = text::chars_of(out[k].as_str());
            assert(ov[k as int] == out@[k as int]@);
            if text_lt_exec(&pv, &ok) {
                break;
            }
            k = k + 1;
        }
        proof {
            assert forall|j: int| k <= j < ov.len() implies !text_lt(#[trigger] ov[j], item@) by {
                if text_lt(ov[j], item@) {
                    if j > k {
                        assert(!text_lt(ov[j], ov[k as int]));
                        lemma_text_lt_transitive(ov[j], item@, ov[k as int]);
                    } else {
                        lemma_text_lt_asymmetric(item@, ov[j]);
                    }
                }
            }
        }
        out.insert(k, item);
        proof {
            let nv = strings_view(out@);
            assert(nv =~= ov.insert(k as int, item@));
            assert forall|a: int, b: int| 0 <= a < b < nv.len() implies !text_lt(#[trigger] nv[b], #[trigger] nv[a]) by {
                if b < k {
                    assert(nv[a] == ov[a] && nv[b] == ov[b]);
                } else if b == k {
                    assert(nv[a] == ov[a] && nv[b] == item@);
                } else if a < k {
                    assert(nv[a] == ov[a] && nv[b] == ov[b - 1]);
                } else if a == k {
                    assert(nv[a] == item@ && nv[b] == ov[b - 1]);
                } else {
                    assert(nv[a] == ov[a - 1] && nv[b] == ov[b - 1]);
                }
            }
            broadcast use vstd::multiset::group_multiset_axioms;
            let x = item@;
            vstd::seq_lib::to_multiset_insert(ov, k as int, x);
            vstd::seq_lib::to_multiset_remove(rv, 0);
            assert(rv.contains(x)) by {
                assert(rv[0] == x);
            }
            vstd::seq_lib::to_multiset_contains(rv, x);
            assert(nv.to_multiset() == ov.to_multiset().insert(x));
            assert(strings_view(rest@).to_multiset() == rv.to_multiset().remove(x));
            assert(nv.to_multiset().add(strings_view(rest@).to_multiset()) =~= ov.to_multiset().add(
                rv.to_multiset(),
            ));
        }
    }
    assert(strings_view(rest@) =~= Seq::<Seq<char>>::empty());
    assert(strings_view(rest@).to_multiset() =~= vstd::multiset::Multiset::empty());
    assert(strings_view(out@).to_multiset().add(vstd::multiset::Multiset::empty()) =~= strings_view(out@).to_multiset());
    out
}

// ── Handing a wallpaper to Plasma ────────────────────────────────────────────

/// The shell command that applies a wallpaper to every screen.
pub fn global_wallpaper_command(image_path: &str) -> (r: String)
    ensures
        r@ == "plasma-apply-wallpaperimage \""@ + image_path@ + "\""@,
{
    let mut out = text::chars_of("plasma-apply-wallpaperimage \"");
    text::push_str(&mut out, image_path);
    text::push_str(&mut out, "\"");
    text::string_of(&out)
}

/// A signed decimal.
pub open spec fn signed_dec(n: i32) -> Seq<char> {
    if n < 0 {
        "-"@ + text::dec((-(n as int)) as nat)
    } else {
        text::dec(n as nat)
    }
}

/// The Plasma script that sets one screen's wallpaper; `'` in the path is
/// escaped.
pub open spec fn screen_wallpaper_script_of(image_path: Seq<char>, screen_index: i32) -> Seq<char> {
    "var allDesktops = desktops(); var target = allDesktops["@ + signed_dec(screen_index)
        + "]; if (target) { target.wallpaperPlugin = 'org.kde.image'; target.currentConfigGroup = ['Wallpaper', 'org.kde.image', 'General']; target.writeConfig('Image', 'file://"@
        + text::replace_all(image_path, "'"@, "\\'"@) + "'); }"@
}

pub fn screen_wallpaper_script(image_path: &str, screen_index: i32) -> (r: String)
    ensures
        r@ == screen_wallpaper_script_of(image_path@, screen_index),
{
    let mut out = text::chars_of("var allDesktops = desktops(); var target = allDesktops[");
    if screen_index < 0 {
        text::push_str(&mut out, "-");
        let m: u64 = (0i64 - screen_index as i64) as u64;
        text::push_dec(&mut out, m);
    } else {
        text::push_dec(&mut out, screen_index as u64);
    }
    text::push_str(
        &mut out,
        "]; if (target) { target.wallpaperPlugin = 'org.kde.image'; target.currentConfigGroup = ['Wallpaper', 'org.kde.image', 'General']; target.writeConfig('Image', 'file://",
    );
    let escaped = text::replace_exec(&text::chars_of(image_path), &text::chars_of("'"), &text::chars_of("\\'"));
    text::push_all(&mut out, &escaped);
    text::push_str(&mut out, "'); }");
    text::string_of(&out)
}

} // verus!
