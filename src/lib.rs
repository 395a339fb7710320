//! Parses a textual change protocol into per-file edit instructions and
//! decides, for each instruction, what has to happen to the file it names.

pub mod apply_changes;
pub mod apply_file_change;
pub mod change_types;
pub mod file_search;
pub mod heading;
pub mod parse_change_protocol;
pub mod protocol;
pub mod tags;
pub mod text;
pub mod matcher;
