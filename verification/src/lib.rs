//! Cataloguing of tagged records by subject, and the planning of a
//! per-subject directory layout.

pub mod catalog;
pub mod chunking;
pub mod components;
pub mod csv;
pub mod errors;
pub mod grouping;
pub mod jobs;
pub mod person;
pub mod progress;
pub mod restruct;
pub mod sorted_paths;
pub mod sorting;
pub mod text;
