//! Auralux core: the verified logic of a local-first music library, player and converter.
use vstd::prelude::*;

pub mod capabilities;
pub mod conversion;
pub mod db;
pub mod imports;
pub mod json;
pub mod metadata;
pub mod os_paths;
pub mod open_files;
pub mod paths;
pub mod playback;
pub mod scanner;
pub mod settings;
pub mod text;

verus! {
} // verus!
