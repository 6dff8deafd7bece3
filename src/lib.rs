//! Weighted Levenshtein distance between two sequences, where the costs of
//! insertion, deletion and substitution come from the elements themselves.
pub mod distance;
pub mod laws;
pub mod model;
pub mod weight;

pub use distance::distance;
pub use weight::EditWeight;
