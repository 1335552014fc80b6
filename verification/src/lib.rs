//! A linter for environment-definition files: it inspects a sequence of
//! `KEY=value` lines and reports style and correctness violations.

pub mod checks;
pub mod common;
pub mod laws;
pub mod text;
