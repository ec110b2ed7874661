use vstd::prelude::*;

pub mod acf;
pub mod api;
pub mod appinfo;
pub mod collection;
pub mod cookies;
pub mod general;
pub mod json;
pub mod library;
pub mod listing;
pub mod logo_text;
pub mod model;
pub mod paths;
pub mod sorting;
pub mod text;
pub mod types;
pub mod vdf;

verus! {
} // verus!
