//! The parts of scheme generation that are not color science: which scheme
//! a request names, and reading and writing the hexadecimal colors of a
//! scheme's color objects.
use vstd::prelude::*;
use crate::context::{ColorEntry, opt_view, str_eq};
use crate::kde::{hex_pair, strip_hashes};
use crate::text;
use crate::text::{byte_prefix, is_hex_digit, trim, utf8_len, utf8_width};

verus! {

/// A scheme type as requested, the scheme it is based on, and whether its
/// surfaces are tinted with the primary color.
#[derive(Debug)]
pub struct SchemeRequest {
    pub requested: String,
    pub base: String,
    pub tinted: bool,
}

/// `parse_scheme_request`: `Tinted X` and `Classic X` name the scheme `X`,
/// tinted or not; any other name is itself, not tinted.
pub open spec fn scheme_request_of(scheme_type: Seq<char>) -> (Seq<char>, bool) {
    if text::starts_with(scheme_type, "Tinted "@) {
        (scheme_type.skip(7), true)
    } else if text::starts_with(scheme_type, "Classic "@) {
        (scheme_type.skip(8), false)
    } else {
        (scheme_type, false)
    }
}

pub fn parse_scheme_request(scheme_type: &str) -> (r: SchemeRequest)
    ensures
        r.requested@ == scheme_type@,
        (r.base@, r.tinted) == scheme_request_of(scheme_type@),
{
    proof {
        reveal_strlit("Tinted ");
        reveal_strlit("Classic ");
    }
    let v = text::chars_of(scheme_type);
    if text::starts_with_str(&v, "Tinted ") {
        let base = text::slice_of(&v, 7, v.len());
        assert(base@ =~= scheme_type@.skip(7));
        return SchemeRequest { requested: String::from_str(scheme_type), base: text::string_of(&base), tinted: true };
    }
    if text::starts_with_str(&v, "Classic ") {
        let base = text::slice_of(&v, 8, v.len());
        assert(base@ =~= scheme_type@.skip(8));
        return SchemeRequest { requested: String::from_str(scheme_type), base: text::string_of(&base), tinted: false };
    }
    SchemeRequest { requested: String::from_str(scheme_type), base: String::from_str(scheme_type), tinted: false }
}

/// The scheme generated for a request: `Smart` is `Monochrome` for a nearly
/// gray wallpaper and `Content` otherwise; any other base is itself.
pub fn effective_scheme_type(base: &str, smart_monochrome: bool) -> (r: &str)
    ensures
        r@ == (if base@ == "Smart"@ {
            if smart_monochrome {
                "Monochrome"@
            } else {
                "Content"@
            }
        } else {
            base@
        }),
{
    if str_eq(base, "Smart") {
        if smart_monochrome {
            "Monochrome"
        } else {
            "Content"
        }
    } else {
        base
    }
}

// ── Reading a color object ───────────────────────────────────────────────────

/// The color that a trimmed `hex` or `color` value gives: `#RRGGBB` from
/// `#RRGGBBAA` (nine bytes) or `#RRGGBB` (seven bytes) as it is.
pub open spec fn hex_from_value(v: Seq<char>) -> Option<Seq<char>> {
    if utf8_len(v) == 9 && v.len() > 0 && v[0] == '#' {
        Some(seq!['#'] + byte_prefix(v, 7)->0.skip(1))
    } else if utf8_len(v) == 7 && v.len() > 0 && v[0] == '#' {
        Some(v)
    } else {
        None
    }
}

/// Slicing the value at byte 7 would fall inside a character.
pub open spec fn value_panics(v: Seq<char>) -> bool {
    utf8_len(v) == 9 && v.len() > 0 && v[0] == '#' && byte_prefix(v, 7) is None
}

/// The color of a scheme entry: from its `hex` value, else its `color` value.
pub open spec fn read_hex_of(e: ColorEntry) -> Option<Seq<char>> {
    match e.hex {
        Some(h) if hex_from_value(trim(h@)) is Some => hex_from_value(trim(h@)),
        _ => match e.color {
            Some(c) => hex_from_value(trim(c@)),
            None => None,
        },
    }
}

/// Reading the value as a color would slice inside a character.
pub open spec fn opt_panics(o: Option<String>) -> bool {
    match o {
        Some(s) => value_panics(trim(s@)),
        None => false,
    }
}

/// The `hex` value gives a color.
pub open spec fn hex_gives(e: ColorEntry) -> bool {
    match e.hex {
        Some(h) => hex_from_value(trim(h@)) is Some,
        None => false,
    }
}

/// Reading the entry's color would slice inside a character.
pub open spec fn read_hex_panics(e: ColorEntry) -> bool {
    opt_panics(e.hex) || (!hex_gives(e) && opt_panics(e.color))
}

fn hex_from_value_exec(s: &str) -> (r: Option<String>)
    requires
        !value_panics(trim(s@)),
    ensures
        opt_view(r) == hex_from_value(trim(s@)),
{
    let v = text::trim_exec(&text::chars_of(s));
    let n = text::utf8_len_capped(&v, 9);
    if n == 9 && v.len() > 0 && v[0] == '#' {
        let head = text::byte_prefix_exec(&v, 7);
        let mut out: Vec<char> = Vec::new();
        out.push('#');
        let rest = text::slice_of(&head, 1, head.len());
        text::push_all(&mut out, &rest);
        assert(out@ =~= seq!['#'] + head@.skip(1));
        return Some(text::string_of(&out));
    }
    if n == 7 && v.len() > 0 && v[0] == '#' {
        return Some(text::string_of(&v));
    }
    None
}

pub fn read_hex_from_entry(e: &ColorEntry) -> (r: Option<String>)
    requires
        !read_hex_panics(*e),
    ensures
        opt_view(r) == read_hex_of(*e),
{
    if let Some(h) = &e.hex {
        if let Some(x) = hex_from_value_exec(h.as_str()) {
            return Some(x);
        }
    }
    match &e.color {
        Some(c) => hex_from_value_exec(c.as_str()),
        None => None,
    }
}

// ── Channels ─────────────────────────────────────────────────────────────────

/// `u8::from_str_radix(t, 16)` succeeds on two one-byte characters: two
/// hexadecimal digits, or `+` and one.
pub open spec fn hex_pair_ok(a: char, b: char) -> bool {
    (is_hex_digit(a) && is_hex_digit(b)) || (a == '+' && is_hex_digit(b))
}

/// The first `n` two-byte slices of `t` parsed in turn, stopping at the first
/// that does not parse: `Some(Some(values))`, `Some(None)` where one fails,
/// `None` where a slice boundary falls inside a character (a panic).
pub open spec fn read_pairs(t: Seq<char>, n: nat) -> Option<Option<Seq<u8>>>
    decreases n,
{
    if n == 0 {
        Some(Some(Seq::empty()))
    } else if t.len() >= 2 && utf8_width(t[0]) == 1 && utf8_width(t[1]) == 1 {
        if hex_pair_ok(t[0], t[1]) {
            match read_pairs(t.skip(2), (n - 1) as nat) {
                Some(Some(r)) => Some(Some(seq![hex_pair(t[0], t[1])] + r)),
                other => other,
            }
        } else {
            Some(None)
        }
    } else if t.len() >= 1 && utf8_width(t[0]) == 2 {
        Some(None)
    } else {
        None
    }
}

/// The text whose first six bytes are the channels: trimmed, without
/// leading `#`.
pub open spec fn rgb_digits(hex: Seq<char>) -> Seq<char> {
    strip_hashes(trim(hex))
}

/// `parse_hex_rgb` panics on `hex`.
pub open spec fn parse_hex_rgb_panics(hex: Seq<char>) -> bool {
    utf8_len(rgb_digits(hex)) >= 6 && read_pairs(rgb_digits(hex), 3) is None
}

/// `parse_hex_rgb`: three channels from the first six bytes after the `#`.
pub open spec fn parse_hex_rgb_of(hex: Seq<char>) -> Option<Seq<u8>> {
    let v = rgb_digits(hex);
    if utf8_len(v) < 6 {
        None
    } else {
        match read_pairs(v, 3) {
            Some(Some(r)) => Some(r),
            _ => None,
        }
    }
}

fn read_pairs_exec(v: &Vec<char>, pos: usize, Ghost(k): Ghost<nat>) -> (r: Option<(u8, usize)>)
    requires
        k >= 1,
        pos <= v.len(),
        read_pairs(v@.skip(pos as int), k) is Some,
    ensures
        r is None ==> read_pairs(v@.skip(pos as int), k) == Some(None::<Seq<u8>>),
        r matches Some((x, next)) ==> pos < next <= v.len() && read_pairs(v@.skip(next as int), (k - 1) as nat)
            is Some && read_pairs(v@.skip(pos as int), k) == match read_pairs(
            v@.skip(next as int),
            (k - 1) as nat,
        ) {
            Some(Some(rest)) => Some(Some(seq![x] + rest)),
            other => other,
        },
{
    let ghost t = v@.skip(pos as int);
    if pos + 1 < v.len() && text::utf8_width_exec(v[pos]) == 1 && text::utf8_width_exec(v[pos + 1]) == 1 {
        assert(t[0] == v@[pos as int] && t[1] == v@[pos + 1]);
        assert(t.skip(2) =~= v@.skip(pos + 2));
        let a = v[pos];
        let b = v[pos + 1];
        if text::is_hex_digit_exec(a) && text::is_hex_digit_exec(b) {
            Some((text::hex_value_exec(a) * 16 + text::hex_value_exec(b), pos + 2))
        } else if a == '+' && text::is_hex_digit_exec(b) {
            Some((text::hex_value_exec(b), pos + 2))
        } else {
            None
        }
    } else {
        assert(t.len() >= 1 && utf8_width(t[0]) == 2);
        None
    }
}

pub fn parse_hex_rgb(hex: &str) -> (r: Option<(u8, u8, u8)>)
    requires
        !parse_hex_rgb_panics(hex@),
    ensures
        match r {
            Some((a, b, c)) => parse_hex_rgb_of(hex@) == Some(seq![a, b, c]),
            None => parse_hex_rgb_of(hex@) is None,
        },
{
    let t = text::trim_exec(&text::chars_of(hex));
    let mut i: usize = 0;
    assert(t@.skip(0) =~= t@);
    while i < t.len() && t[i] == '#'
        invariant
            i <= t.len(),
            t@ == trim(hex@),
            strip_hashes(t@.skip(i as int)) == strip_hashes(t@),
        decreases t.len() - i,
    {
        assert(t@.skip(i as int).drop_first() =~= t@.skip(i + 1));
        i = i + 1;
    }
    assert(strip_hashes(t@.skip(i as int)) == t@.skip(i as int));
    let v = text::slice_of(&t, i, t.len());
    assert(v@ =~= rgb_digits(hex@));
    if text::utf8_len_capped(&v, 5) <= 5 {
        return None;
    }
    assert(v@.skip(0) =~= v@);
    let (r, p1) = match read_pairs_exec(&v, 0, Ghost(3)) {
        Some(x) => x,
        None => return None,
    };
    let (g, p2) = match read_pairs_exec(&v, p1, Ghost(2)) {
        Some(x) => x,
        None => return None,
    };
    let (b, p3) = match read_pairs_exec(&v, p2, Ghost(1)) {
        Some(x) => x,
        None => return None,
    };
    assert(seq![r] + (seq![g] + (seq![b] + Seq::<u8>::empty())) =~= seq![r, g, b]);
    Some((r, g, b))
}

// ── Writing a color object ───────────────────────────────────────────────────

/// The fields `write_color_object` sets for a color, in order: `color`,
/// `hex`, `hex_stripped`, `hex_alpha`, `hex_alpha_stripped`, `rgb`, `rgba`,
/// `red`, `green`, `blue`; `None` where the color does not parse (the object
/// is then left as it is).
pub open spec fn color_fields_of(hex: Seq<char>) -> Option<Seq<(Seq<char>, Seq<char>)>> {
    match parse_hex_rgb_of(hex) {
        None => None,
        Some(c) => {
            let stripped = strip_hashes(hex);
            let (r, g, b) = (text::dec(c[0] as nat), text::dec(c[1] as nat), text::dec(c[2] as nat));
            Some(
                seq![
                    ("color"@, hex),
                    ("hex"@, hex),
                    ("hex_stripped"@, stripped),
                    ("hex_alpha"@, hex + "ff"@),
                    ("hex_alpha_stripped"@, stripped + "ff"@),
                    ("rgb"@, "rgb("@ + r + ", "@ + g + ", "@ + b + ")"@),
                    ("rgba"@, "rgba("@ + r + ", "@ + g + ", "@ + b + ", 255)"@),
                    ("red"@, r),
                    ("green"@, g),
                    ("blue"@, b),
                ],
            )
        },
    }
}

pub open spec fn pairs_view(v: Seq<(String, String)>) -> Seq<(Seq<char>, Seq<char>)> {
    v.map_values(|p: (String, String)| (p.0@, p.1@))
}

fn dec_string(n: u8) -> (r: String)
    ensures
        r@ == text::dec(n as nat),
{
    let mut v: Vec<char> = Vec::new();
    text::push_dec(&mut v, n as u64);
    assert(v@ =~= text::dec(n as nat));
    text::string_of(&v)
}

pub fn color_object_fields(hex: &str) -> (r: Option<Vec<(String, String)>>)
    requires
        !parse_hex_rgb_panics(hex@),
    ensures
        match r {
            Some(v) => color_fields_of(hex@) == Some(pairs_view(v@)),
            None => color_fields_of(hex@) is None,
        },
{
    let (r, g, b) = match parse_hex_rgb(hex) {
        Some(x) => x,
        None => return None,
    };
    let hv = text::chars_of(hex);
    let mut i: usize = 0;
    assert(hv@.skip(0) =~= hv@);
    while i < hv.len() && hv[i] == '#'
        invariant
            i <= hv.len(),
            hv@ == hex@,
            strip_hashes(hv@.skip(i as int)) == strip_hashes(hex@),
        decreases hv.len() - i,
    {
        assert(hv@.skip(i as int).drop_first() =~= hv@.skip(i + 1));
        i = i + 1;
    }
    assert(strip_hashes(hv@.skip(i as int)) == hv@.skip(i as int));
    let stripped = text::slice_of(&hv, i, hv.len());
    assert(stripped@ =~= strip_hashes(hex@));
    let rs = dec_string(r);
    let gs = dec_string(g);
    let bs = dec_string(b);
    let mut alpha = hv.clone();
    text::push_str(&mut alpha, "ff");
    let mut alpha_s = stripped.clone();
    text::push_str(&mut alpha_s, "ff");
    let mut rgb = text::chars_of("rgb(");
    text::push_str(&mut rgb, rs.as_str());
    text::push_str(&mut rgb, ", ");
    text::push_str(&mut rgb, gs.as_str());
    text::push_str(&mut rgb, ", ");
    text::push_str(&mut rgb, bs.as_str());
    text::push_str(&mut rgb, ")");
    let mut rgba = text::chars_of("rgba(");
    text::push_str(&mut rgba, rs.as_str());
    text::push_str(&mut rgba, ", ");
    text::push_str(&mut rgba, gs.as_str());
    text::push_str(&mut rgba, ", ");
    text::push_str(&mut rgba, bs.as_str());
    text::push_str(&mut rgba, ", 255)");
    let mut out: Vec<(String, String)> = Vec::new();
    out.push((String::from_str("color"), String::from_str(hex)));
    out.push((String::from_str("hex"), String::from_str(hex)));
    out.push((String::from_str("hex_stripped"), text::string_of(&stripped)));
    out.push((String::from_str("hex_alpha"), text::string_of(&alpha)));
    out.push((String::from_str("hex_alpha_stripped"), text::string_of(&alpha_s)));
    out.push((String::from_str("rgb"), text::string_of(&rgb)));
    out.push((String::from_str("rgba"), text::string_of(&rgba)));
    out.push((String::from_str("red"), rs));
    out.push((String::from_str("green"), gs));
    out.push((String::from_str("blue"), bs));
    assert(pairs_view(out@) =~= color_fields_of(hex@)->0);
    Some(out)
}


// ── The wal palette backend ──────────────────────────────────────────────────

/// The settings of the k-means palette extraction.
#[derive(Debug, Clone, Copy)]
pub struct WalBackend {
    pub clusters: usize,
    pub resize_width: u32,
    pub sample_step: u32,
    pub iterations: usize,
}

impl Default for WalBackend {
    /// Sixteen clusters from the image scaled to 300 pixels wide, every
    /// second pixel, eight rounds.
    fn default() -> (r: WalBackend)
        ensures
            r.clusters == 16,
            r.resize_width == 300,
            r.sample_step == 2,
            r.iterations == 8,
    {
        WalBackend { clusters: 16, resize_width: 300, sample_step: 2, iterations: 8 }
    }
}

/// The number of clusters k-means uses: at most one per sample.
pub fn cluster_count(k: usize, samples: usize) -> (r: usize)
    ensures
        r == (if k < samples { k } else { samples }),
{
    if k < samples {
        k
    } else {
        samples
    }
}

/// The samples the clusters start from: evenly spread over the samples, first
/// and last included (only the first where there is one cluster).
pub open spec fn initial_index(index: int, samples: int, clusters: int) -> int {
    if clusters == 1 {
        0
    } else {
        index * (samples - 1) / (clusters - 1)
    }
}

pub fn initial_indices(samples: usize, clusters: usize) -> (r: Vec<usize>)
    requires
        1 <= clusters <= samples,
        (clusters - 1) * (samples - 1) <= usize::MAX,
    ensures
        r@.len() == clusters,
        forall|i: int| 0 <= i < clusters ==> #[trigger] r@[i] == initial_index(i, samples as int, clusters as int),
        forall|i: int| 0 <= i < clusters ==> #[trigger] r@[i] < samples,
{
    let mut r: Vec<usize> = Vec::new();
    if clusters == 1 {
        r.push(0);
        return r;
    }
    let mut i: usize = 0;
    while i < clusters
        invariant
            2 <= clusters <= samples,
            (clusters - 1) * (samples - 1) <= usize::MAX,
            i <= clusters,
            r@.len() == i,
            forall|k: int| 0 <= k < i ==> #[trigger] r@[k] == initial_index(k, samples as int, clusters as int),
            forall|k: int| 0 <= k < i ==> #[trigger] r@[k] < samples,
        decreases clusters - i,
    {
        assert(i * (samples - 1) <= (clusters - 1) * (samples - 1)) by (nonlinear_arith)
            requires
                i <= clusters - 1,
                samples >= 1,
        ;
        let x: usize = i * (samples - 1) / (clusters - 1);
        assert(x <= samples - 1) by (nonlinear_arith)
            requires
                x == i * (samples - 1) / (clusters - 1),
                i <= clusters - 1,
                clusters >= 2,
                samples >= 1,
        {
            vstd::arithmetic::div_mod::lemma_div_is_ordered(
                i * (samples - 1),
                (clusters - 1) * (samples - 1),
                clusters - 1,
            );
            vstd::arithmetic::div_mod::lemma_div_multiples_vanish(samples - 1, clusters - 1);
        }
        r.push(x);
        i = i + 1;
    }
    r
}

} // verus!
