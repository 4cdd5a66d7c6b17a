//! The per-project table of symbol embeddings. Nothing is stored: the
//! handle holds no state and opening it touches nothing on disk.

use vstd::prelude::*;

verus! {

/// Handle on a project's embeddings table.
pub struct CodeEmbeddingTable;

impl CodeEmbeddingTable {
    /// Open the handle for a project directory; nothing is read or
    /// created.
    pub fn open(project_dir: &str) -> (r: CodeEmbeddingTable)
        ensures
            r == CodeEmbeddingTable,
    {
        CodeEmbeddingTable
    }

    /// Delete the rows of the given source files: there are none, so
    /// nothing happens and the call always succeeds.
    pub fn delete_by_source_files(&self, files: &Vec<String>) -> (r: Result<(), String>)
        ensures
            r is Ok,
    {
        Ok(())
    }
}

} // verus!
