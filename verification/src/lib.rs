use vstd::prelude::*;

pub mod adobe;
pub mod archive;
pub mod books;
pub mod cache;
pub mod cli;
pub mod config;
pub mod copy;
pub mod crosspoint;
pub mod digest;
pub mod epub;
pub mod format;
pub mod history;
pub mod inventory;
pub mod kepub;
pub mod kobo;
pub mod metadata;
pub mod names;
pub mod opds;
pub mod order;
pub mod paths;
pub mod pdf;
pub mod position;
pub mod prepare;
pub mod profile;
pub mod sync;
pub mod text;
pub mod tui;
pub mod values;
pub mod xml;

verus! {

} // verus!
