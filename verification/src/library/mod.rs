//! Reading, editing and importing music files.

pub mod artist_fixes;
pub mod fix_merges;
pub mod import;
pub mod laws;
pub mod scanner;
pub mod tag_writer;
