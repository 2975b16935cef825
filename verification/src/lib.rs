//! Matugen Studio: Material You palettes applied to KDE Plasma, GTK and
//! application templates.
use vstd::prelude::*;

pub mod text;
pub mod matching;
mod xdg;
pub mod settings;
pub mod context;
pub mod ini;
pub mod integrations;
pub mod path;
pub mod template_meta;
pub mod preset;
pub mod kde;
pub mod wallpaper;
pub mod catalog;
pub mod overrides;
pub mod gtk;
pub mod install;
pub mod catalog_build;
pub mod color;
pub mod desktop;
pub mod wallhaven;
pub mod filters;
