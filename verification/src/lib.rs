//! Normalizes the layout of A2ML metadata files inside the repositories of an
//! estate: where each file belongs, which files are duplicates, what a
//! converted `.scm` file looks like, and which documents a directory lacks.
//! The file system itself is touched by the caller; this library decides.

pub mod text;
pub mod paths;
pub mod mode;
pub mod names;
pub mod relocate;
pub mod clock;
pub mod transpile;
pub mod anchor;
pub mod documents;
pub mod cleanup;
pub mod run;
