//! The text of a grammar file.

use vstd::prelude::*;

verus! {

/// The contents of a grammar file.
#[derive(Debug)]
pub struct FileData {
    /// The text of the grammar.
    pub grammar_contents: String,
}

impl FileData {
    /// File data without text.
    pub fn new() -> (r: FileData)
        ensures
            r.grammar_contents@.len() == 0,
    {
        FileData { grammar_contents: String::new() }
    }
}

} // verus!
