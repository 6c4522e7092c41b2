//! Schema-projection engine: from one canonical record definition with
//! per-field visibility rules, derive a family of related record types,
//! per-field accessor capabilities, and conversions between every pair of
//! derived types.

pub mod model;
pub mod names;
pub mod rule;
pub mod registry;
pub mod distribute;
pub mod convert;
pub mod derive;
pub mod laws;

pub use names::{pascal_to_snake, snake_to_pascal};
