//! The mutator registry: stable names, families, presets, and selector resolution.
//!
//! Every mutator has one stable, well-known name of the form `family.transform`. Nothing anywhere
//! refers to a mutator by index, by description or by position in a list, because all three of
//! those change when the catalog grows.
pub mod catalog;
pub mod laws;
pub mod lookup;
pub mod mutator;
pub mod names;
pub mod preset;
pub mod selection;
pub mod table;

pub use catalog::{presets, registry};
pub use lookup::{families, find, find_preset, resolve};
pub use mutator::{Entry, Mutator};
pub use preset::{Group, Preset};
pub use selection::Selection;
