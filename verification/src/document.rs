//! Document state: the full text of one open document plus its version counter.

use vstd::prelude::*;

verus! {

/// The state of one text document: replaced wholesale on every change.
#[derive(Debug, Clone)]
pub struct Document {
    /// The document text content
    pub text: String,
    /// The document version
    pub version: i32,
}

impl Document {
    /// Create a new document with the given text and version
    pub fn new(text: String, version: i32) -> (d: Document)
        ensures
            d.text@ == text@,
            d.version == version,
    {
        Document { text, version }
    }
}

} // verus!
