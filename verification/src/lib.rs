//! Resolution engine for the minimum supported Rust toolchain version (MSRV)
//! of a project: a bare two/three-component version model, a release catalog
//! with bounds filtering, tilde-style version matching, a check-outcome
//! classifier, and a linear/bisection search engine that reports its progress
//! through an abstract event vocabulary.

pub mod catalog;
pub mod check;
pub mod config;
pub mod errors;
pub mod manifest;
pub mod reporter;
pub mod search;
pub mod toolchain;
pub mod version;
