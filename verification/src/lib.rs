//! A dog-care aggregation service built twice over the same rules: once with
//! collaborators fixed as type parameters, once with collaborators behind
//! trait objects. Every operation repeats a fixed number of passes over a
//! private copy of its data; the contracts state what comes out of them.

pub mod text;
pub mod sequences;
pub mod sorting;
pub mod static_traits;
pub mod dyn_traits;
pub mod no_traits;
