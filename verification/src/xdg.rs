//! The user's folders, as the `dirs` crate finds them for this platform and
//! environment.
use vstd::prelude::*;

verus! {

/// Calls `dirs::picture_dir`. What it returns depends on the environment and
/// the platform, so nothing is stated of it.
#[verifier::external_body]
pub(crate) fn picture_dir() -> (r: Option<String>) {
    match dirs::picture_dir() {
        Some(p) => Some(p.to_string_lossy().into_owned()),
        None => None,
    }
}

/// Calls `dirs::data_dir`; it depends on the environment, so nothing is stated.
#[verifier::external_body]
pub(crate) fn data_dir() -> (r: Option<String>) {
    match dirs::data_dir() {
        Some(p) => Some(p.to_string_lossy().into_owned()),
        None => None,
    }
}

/// Calls `dirs::home_dir`; it depends on the environment, so nothing is stated.
#[verifier::external_body]
pub(crate) fn home_dir() -> (r: Option<String>) {
    match dirs::home_dir() {
        Some(p) => Some(p.to_string_lossy().into_owned()),
        None => None,
    }
}

/// Calls `dirs::cache_dir`; it depends on the environment, so nothing is stated.
#[verifier::external_body]
pub(crate) fn cache_dir() -> (r: Option<String>) {
    match dirs::cache_dir() {
        Some(p) => Some(p.to_string_lossy().into_owned()),
        None => None,
    }
}

/// Calls `dirs::config_dir`; it depends on the environment, so nothing is stated.
#[verifier::external_body]
pub(crate) fn config_dir() -> (r: Option<String>) {
    match dirs::config_dir() {
        Some(p) => Some(p.to_string_lossy().into_owned()),
        None => None,
    }
}

} // verus!
