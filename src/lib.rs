//! Core of a package manager: a semantic-version constraint engine, the model
//! of packages and resolutions, and the bookkeeping of a content-addressed cache.
pub mod text;
pub mod field;
pub mod grammar;
pub mod constraint;
pub mod range;
pub mod version;
pub mod package;
pub mod table;
pub mod artifacts;
pub mod cache;
pub mod registry;
pub mod config;
pub mod laws;
pub mod schedule;
