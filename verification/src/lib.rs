//! A J interpreter on integer arrays, with its word-formation tables.
pub mod text;
pub mod error;
pub mod array;
pub mod verbs;
pub mod interp;
pub mod gpu;
pub mod token;
pub mod eval;
pub mod lexers;
pub mod engine;
