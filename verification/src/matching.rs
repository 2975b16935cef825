//! Regular expressions, through the `regex` crate: each pattern is given by
//! the caller, and what the crate makes of it is named here.
use vstd::prelude::*;
use crate::context::opt_view;

verus! {

/// The groups of the first match of `pattern` in `text` (each where it took
/// part in the match), or `None` where nothing matches or the pattern does
/// not compile.
pub uninterp spec fn regex_captured(pattern: Seq<char>, text: Seq<char>) -> Option<Seq<Option<Seq<char>>>>;

/// Compiles `pattern` with `regex::Regex::new` and calls `captures`: every
/// group of the first match, the whole match first; the result is what
/// `regex_captured` names.
#[verifier::external_body]
pub(crate) fn regex_captures(pattern: &str, text: &str) -> (r: Option<Vec<Option<String>>>)
    ensures
        r matches Some(v) ==> regex_captured(pattern@, text@) == Some(v@.map_values(|o: Option<String>| opt_view(o))),
        r is None ==> regex_captured(pattern@, text@) is None,
{
    let caps = regex::Regex::new(pattern).ok()?.captures(text)?;
    Some(caps.iter().map(|m| m.map(|m| m.as_str().to_string())).collect())
}

/// Whether `pattern` matches somewhere in `text` (false where the pattern
/// does not compile).
pub uninterp spec fn regex_matched(pattern: Seq<char>, text: Seq<char>) -> bool;

/// The anchored, case-insensitive pattern of a `#RRGGBB` or `#RRGGBBAA`
/// color.
pub open spec fn hex_color_pattern() -> Seq<char> {
    "(?i)^#[0-9a-f]{6}([0-9a-f]{2})?$"@
}

/// `^#[0-9a-f]{6}([0-9a-f]{2})?$`, case-insensitive: `#` and six or eight
/// hexadecimal digits, nothing else.
pub open spec fn hex_color_form(v: Seq<char>) -> bool {
    &&& (v.len() == 7 || v.len() == 9)
    &&& v[0] == '#'
    &&& forall|i: int| 1 <= i < v.len() ==> crate::text::is_hex_digit(#[trigger] v[i])
}

/// Compiles `pattern` with `regex::Regex::new` and calls `is_match`; the
/// result is what `regex_matched` names. For the hex color pattern the regex
/// semantics fix it: the case-insensitive class is the ASCII digits and the
/// letters a to f, and the anchors leave nothing else.
#[verifier::external_body]
pub(crate) fn regex_is_match(pattern: &str, text: &str) -> (r: bool)
    ensures
        r == regex_matched(pattern@, text@),
        pattern@ == hex_color_pattern() ==> r == hex_color_form(text@),
{
    regex::Regex::new(pattern).map_or(false, |re| re.is_match(text))
}

/// The text before the first match of `pattern` and the match, or `None`
/// where nothing matches or the pattern does not compile.
pub uninterp spec fn regex_found(pattern: Seq<char>, text: Seq<char>) -> Option<(Seq<char>, Seq<char>)>;

/// The case-insensitive pattern of a color in a template line, eight
/// digits tried first.
pub open spec fn hex_find_pattern() -> Seq<char> {
    "(?i)#(?:[0-9a-f]{8}|[0-9a-f]{6})"@
}

/// `n` hexadecimal digits at `i`.
pub open spec fn hex_run(s: Seq<char>, i: int, n: int) -> bool {
    0 <= i && i + n <= s.len() && forall|k: int| i <= k < i + n ==> crate::text::is_hex_digit(#[trigger] s[k])
}

/// The length of the match of the color pattern at `i`: the eight-digit
/// form is tried first.
pub open spec fn hex_match_at(s: Seq<char>, i: int) -> Option<int> {
    if 0 <= i < s.len() && s[i] == '#' && hex_run(s, i + 1, 6) {
        if hex_run(s, i + 1, 8) {
            Some(9)
        } else {
            Some(7)
        }
    } else {
        None
    }
}

/// The leftmost match at or after `i`: its start and length.
pub open spec fn hex_find_from(s: Seq<char>, i: int) -> Option<(int, int)>
    decreases s.len() - i,
{
    if i < 0 || i >= s.len() {
        None
    } else {
        match hex_match_at(s, i) {
            Some(n) => Some((i, n)),
            None => hex_find_from(s, i + 1),
        }
    }
}

pub open spec fn hex_find(s: Seq<char>) -> Option<(int, int)> {
    hex_find_from(s, 0)
}

/// Compiles `pattern` with `regex::Regex::new` and calls `find`: the text
/// before the leftmost match and the match; the result is what
/// `regex_found` names. For the color pattern the regex semantics fix it as
/// `hex_find` states (leftmost position, first alternative first; the
/// case-insensitive class is the ASCII hexadecimal digits).
#[verifier::external_body]
pub(crate) fn regex_find(pattern: &str, text: &str) -> (r: Option<(String, String)>)
    ensures
        r matches Some(x) ==> regex_found(pattern@, text@) == Some((x.0@, x.1@)),
        r is None ==> regex_found(pattern@, text@) is None,
        pattern@ == hex_find_pattern() ==> (r is None <==> hex_find(text@) is None),
        pattern@ == hex_find_pattern() ==> (r matches Some(x) ==> hex_find(text@) == Some(
            (x.0@.len() as int, x.1@.len() as int),
        ) && text@.take((x.0@.len() + x.1@.len()) as int) == x.0@ + x.1@),
{
    let m = regex::Regex::new(pattern).ok()?.find(text)?;
    Some((text[..m.start()].to_string(), m.as_str().to_string()))
}

/// The characters that `regex::escape` escapes (`regex_syntax`'s
/// `is_meta_character`).
pub open spec fn is_meta_character(c: char) -> bool {
    c == '\\' || c == '.' || c == '+' || c == '*' || c == '?' || c == '(' || c == ')' || c == '|' || c == '['
        || c == ']' || c == '{' || c == '}' || c == '^' || c == '$' || c == '#' || c == '&' || c == '-' || c == '~'
}

/// What `regex::escape` makes of a text: a backslash before every meta
/// character.
pub open spec fn regex_escaped(text: Seq<char>) -> Seq<char>
    decreases text.len(),
{
    if text.len() == 0 {
        Seq::empty()
    } else {
        let c = text.last();
        regex_escaped(text.drop_last()) + (if is_meta_character(c) {
            seq!['\\', c]
        } else {
            seq![c]
        })
    }
}

/// `regex::escape` (`regex_syntax::escape`): its result is what
/// `regex_escaped` states.
#[verifier::external_body]
pub(crate) fn regex_escape(text: &str) -> (r: String)
    ensures
        r@ == regex_escaped(text@),
{
    regex::escape(text)
}

/// What `replace_all` gives for `pattern` on `content` with the replacement
/// text (where the pattern does not compile, the content unchanged).
pub uninterp spec fn regex_replaced_all(pattern: Seq<char>, content: Seq<char>, replacement: Seq<char>) -> Seq<char>;

/// Compiles `pattern` with `regex::Regex::new` and calls `replace_all`; the
/// result is what `regex_replaced_all` names.
#[verifier::external_body]
pub(crate) fn regex_replace_all(pattern: &str, content: &str, replacement: &str) -> (r: String)
    ensures
        r@ == regex_replaced_all(pattern@, content@, replacement@),
{
    regex::Regex::new(pattern).map_or(content.to_string(), |re| re.replace_all(content, replacement).to_string())
}

} // verus!
