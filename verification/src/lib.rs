//! Token-level pattern matching and dictionary federation for finding
//! issues of grammar and style in prose.
pub mod text;
pub mod token;
pub mod patterns;
pub mod spell;
pub mod linting;
