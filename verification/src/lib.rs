//! Splitting source trees into retrievable chunks: paragraph and syntax-aware
//! chunking, content-addressed chunk identifiers, and the small decisions of
//! the retrieval service built around them.

pub mod chunking;
pub mod document;
pub mod embedding;
pub mod hashing;
pub mod id_index;
pub mod indexing;
pub mod service;
pub mod syntax;
pub mod text;

use vstd::prelude::*;

verus! {

/// A file read as text, named by its path relative to the collection root.
#[derive(Debug, Clone)]
pub struct Document {
    /// Path of the file relative to the collection root.
    pub id: String,
    /// Contents of the file.
    pub text: String,
    pub meta: Meta,
}

/// What is known of a file besides its text.
#[derive(Debug, Clone)]
pub struct Meta {
    extension: Option<String>,
    size_bytes: u64,
}

impl Meta {
    /// The file name extension, if the file has one.
    pub closed spec fn extension_of(&self) -> Option<String> {
        self.extension
    }

    /// The size of the file in bytes.
    pub closed spec fn size_of(&self) -> u64 {
        self.size_bytes
    }

    /// Metadata of a file with the given extension and size.
    pub fn new(extension: Option<String>, size_bytes: u64) -> (meta: Meta)
        ensures
            meta.extension_of() == extension,
            meta.size_of() == size_bytes,
    {
        Meta { extension, size_bytes }
    }
}

} // verus!
