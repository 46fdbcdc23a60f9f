use vstd::prelude::*;

pub mod error;
pub mod text;
pub mod scanner;
pub mod wrappers;
pub mod record;
pub mod save;
pub mod data;
pub mod map;
pub mod draw;
pub mod tape_scanner;
pub mod settings;

verus! {
} // verus!
