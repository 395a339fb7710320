//! The protocol's data model: file instructions, their edit fragments, and
//! the per-file outcome records.

use vstd::prelude::*;

verus! {

/// One atomic edit within a file instruction.
#[derive(Debug, Clone, PartialEq, Eq)]
pub struct Change {
    /// A label for reports; it has no effect on what is applied.
    pub description: String,
    /// The original text to locate; required by `Modify`.
    pub search: Option<String>,
    /// The replacement, or the body of a rewritten or created file.
    pub content: String,
}

/// What a file instruction does to its file.
#[derive(Debug, Clone, Copy, PartialEq, Eq, Structural)]
pub enum Action {
    Modify,
    Rewrite,
    Create,
    Delete,
}

/// One file-level operation: its path as written, its action, and its
/// fragments in application order.
#[derive(Debug, Clone, PartialEq, Eq)]
pub struct FileChange {
    pub path: String,
    pub action: Action,
    pub changes: Vec<Change>,
}

/// A file whose instruction failed, with the chain of causes.
#[derive(Debug, Clone, PartialEq, Eq)]
pub struct FileError {
    pub path: String,
    pub messages: Vec<String>,
}

/// A file whose instruction was applied.
#[derive(Debug, Clone, PartialEq, Eq)]
pub struct FileSuccess {
    pub path: String,
    pub messages: Vec<String>,
}

/// One entry of a directory listing or of a file search.
#[derive(Debug)]
pub struct TreeItemData {
    pub id: String,
    pub name: String,
    pub path: String,
    pub is_directory: bool,
    pub children: Vec<TreeItemData>,
    pub loaded_children: bool,
}

} // verus!
