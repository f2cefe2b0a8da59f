//! The project bundle types, shared with the codec and the path filter.
pub use crate::proj_files::{FileCollection, FileData};
