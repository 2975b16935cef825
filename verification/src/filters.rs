//! The string filters of matugen templates: `replace` and the case filters,
//! on text, booleans and colors (a color as the text of its format).
use vstd::prelude::*;
use convert_case::{Case, Casing};
use crate::text;

verus! {

/// What a filter receives: text, a color already formatted with the last
/// keyword (`None` where that format is not one of the color formats), or a
/// boolean.
#[derive(Debug, Clone)]
pub enum FilterInput {
    Text(String),
    Color(Option<String>),
    Bool(bool),
}

/// Why a filter cannot turn a color into text.
#[derive(Debug, Clone, PartialEq, Eq)]
pub enum FilterError {
    /// The filter was given no color format.
    MissingColorFormat,
    /// The last keyword is no color format.
    InvalidColorFormat { format: String },
}

/// The text a filter works on: the text itself, `true` or `false`, or the
/// formatted color.
pub open spec fn filter_text_of(value: FilterInput, keywords: Seq<String>) -> Result<Seq<char>, Option<Seq<char>>> {
    match value {
        FilterInput::Text(s) => Ok(s@),
        FilterInput::Bool(b) => Ok(if b { "true"@ } else { "false"@ }),
        FilterInput::Color(formatted) => if keywords.len() == 0 {
            Err(None)
        } else {
            match formatted {
                Some(s) => Ok(s@),
                None => Err(Some(keywords.last()@)),
            }
        },
    }
}

/// The error as the specification writes it: `None` for a missing format, or
/// the format that is invalid.
pub open spec fn error_view(e: FilterError) -> Option<Seq<char>> {
    match e {
        FilterError::MissingColorFormat => None,
        FilterError::InvalidColorFormat { format } => Some(format@),
    }
}

pub open spec fn text_result_view(r: Result<String, FilterError>) -> Result<Seq<char>, Option<Seq<char>>> {
    match r {
        Ok(s) => Ok(s@),
        Err(e) => Err(error_view(e)),
    }
}

/// The text a filter works on: a color in the format that the last keyword
/// names, and the text of the other values.
pub fn filter_text(value: &FilterInput, keywords: &Vec<String>) -> (r: Result<String, FilterError>)
    ensures
        text_result_view(r) == filter_text_of(*value, keywords@),
{
    match value {
        FilterInput::Text(s) => Ok(s.clone()),
        FilterInput::Bool(b) => Ok(String::from_str(if *b { "true" } else { "false" })),
        FilterInput::Color(formatted) => {
            if keywords.len() == 0 {
                return Err(FilterError::MissingColorFormat);
            }
            match formatted {
                Some(s) => Ok(s.clone()),
                None => Err(FilterError::InvalidColorFormat { format: keywords[keywords.len() - 1].clone() }),
            }
        },
    }
}

/// `replace`: every occurrence of `find` in the value's text replaced.
pub fn replace(value: &FilterInput, keywords: &Vec<String>, find: &str, replacement: &str) -> (r: Result<
    String,
    FilterError,
>)
    ensures
        text_result_view(r) == match filter_text_of(*value, keywords@) {
            Ok(t) => Ok(text::replace_all(t, find@, replacement@)),
            Err(e) => Err(e),
        },
{
    match filter_text(value, keywords) {
        Ok(t) => {
            let out = text::replace_exec(&text::chars_of(t.as_str()), &text::chars_of(find), &text::chars_of(replacement));
            Ok(text::string_of(&out))
        },
        Err(e) => Err(e),
    }
}

/// The cases the filters convert to.
#[derive(Debug, Clone, Copy, PartialEq, Eq)]
pub enum TextCase {
    Lower,
    Camel,
    Pascal,
    Snake,
    Kebab,
}

/// What `convert_case`'s `to_case` makes of a text in a case.
pub uninterp spec fn converted(s: Seq<char>, case: TextCase) -> Seq<char>;

/// Calls `convert_case::Casing::to_case` with the matching `Case`; the result
/// is what `converted` names, nothing more is claimed.
#[verifier::external_body]
fn to_case(s: &str, case: TextCase) -> (r: String)
    ensures
        r@ == converted(s@, case),
{
    s.to_case(match case {
        TextCase::Lower => Case::Lower,
        TextCase::Camel => Case::Camel,
        TextCase::Pascal => Case::Pascal,
        TextCase::Snake => Case::Snake,
        TextCase::Kebab => Case::Kebab,
    })
}

/// A case filter: the value's text converted to the case.
pub fn case_filter(value: &FilterInput, keywords: &Vec<String>, case: TextCase) -> (r: Result<String, FilterError>)
    ensures
        text_result_view(r) == match filter_text_of(*value, keywords@) {
            Ok(t) => Ok(converted(t, case)),
            Err(e) => Err(e),
        },
{
    match filter_text(value, keywords) {
        Ok(t) => Ok(to_case(t.as_str(), case)),
        Err(e) => Err(e),
    }
}

/// `lower_case`.
pub fn lower_case(value: &FilterInput, keywords: &Vec<String>) -> (r: Result<String, FilterError>)
    ensures
        text_result_view(r) == match filter_text_of(*value, keywords@) {
            Ok(t) => Ok(converted(t, TextCase::Lower)),
            Err(e) => Err(e),
        },
{
    case_filter(value, keywords, TextCase::Lower)
}

/// `camel_case`.
pub fn camel_case(value: &FilterInput, keywords: &Vec<String>) -> (r: Result<String, FilterError>)
    ensures
        text_result_view(r) == match filter_text_of(*value, keywords@) {
            Ok(t) => Ok(converted(t, TextCase::Camel)),
            Err(e) => Err(e),
        },
{
    case_filter(value, keywords, TextCase::Camel)
}

/// `pascal_case`.
pub fn pascal_case(value: &FilterInput, keywords: &Vec<String>) -> (r: Result<String, FilterError>)
    ensures
        text_result_view(r) == match filter_text_of(*value, keywords@) {
            Ok(t) => Ok(converted(t, TextCase::Pascal)),
            Err(e) => Err(e),
        },
{
    case_filter(value, keywords, TextCase::Pascal)
}

/// `snake_case`.
pub fn snake_case(value: &FilterInput, keywords: &Vec<String>) -> (r: Result<String, FilterError>)
    ensures
        text_result_view(r) == match filter_text_of(*value, keywords@) {
            Ok(t) => Ok(converted(t, TextCase::Snake)),
            Err(e) => Err(e),
        },
{
    case_filter(value, keywords, TextCase::Snake)
}

/// `kebab_case`.
pub fn kebab_case(value: &FilterInput, keywords: &Vec<String>) -> (r: Result<String, FilterError>)
    ensures
        text_result_view(r) == match filter_text_of(*value, keywords@) {
            Ok(t) => Ok(converted(t, TextCase::Kebab)),
            Err(e) => Err(e),
        },
{
    case_filter(value, keywords, TextCase::Kebab)
}

} // verus!
