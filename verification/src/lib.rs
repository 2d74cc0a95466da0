//! A photo-sorting library: templates with bracketed tokens (`[year]`,
//! `[filename]`, ...) are resolved against per-file capture metadata to plan,
//! validate and apply a set of file moves.

pub mod apply;
pub mod executor;
pub mod metadata;
pub mod paths;
pub mod registry;
pub mod text;
