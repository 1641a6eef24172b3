use vstd::prelude::*;

pub mod text;
pub mod path;
pub mod wikilink;
pub mod fs;
pub mod config;
pub mod keys;
pub mod markdown;
pub mod app;
pub mod control;
pub mod view;

verus! {
} // verus!
