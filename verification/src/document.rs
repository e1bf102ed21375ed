//! Documents: the text of one file of a source tree with its metadata.

use vstd::prelude::*;

verus! {

/// The identifier under which the chunks of a document are filed.
pub type DocumentID = [u8; 32];

/// One file of a source tree, read as text.
#[derive(Debug, Clone)]
pub struct Document {
    /// Number of the document, given when it is loaded; its chunks are filed
    /// under `document_id(id)`.
    pub id: u32,
    /// Path of the file relative to the root of the collection.
    pub path: String,
    /// Contents of the file.
    pub text: String,
    pub meta: DocumentMetadata,
}

/// What is known of a document's file besides its text.
#[derive(Debug, Clone)]
pub struct DocumentMetadata {
    /// File name extension without the dot, empty when the file has none.
    pub extension: String,
    /// Size of the file in bytes.
    pub size_bytes: u64,
}

/// The 32-byte identifier of the document numbered `id`: its four bytes in
/// little-endian order, followed by zeros.
pub open spec fn document_id_bytes(id: u32) -> Seq<u8> {
    Seq::new(
        32,
        |i: int|
            if i == 0 {
                (id % 256) as u8
            } else if i == 1 {
                ((id / 256) % 256) as u8
            } else if i == 2 {
                ((id / 65536) % 256) as u8
            } else if i == 3 {
                ((id / 16777216) % 256) as u8
            } else {
                0u8
            },
    )
}

/// The identifier of the document numbered `id`.
pub fn document_id(id: u32) -> (doc_id: DocumentID)
    ensures
        doc_id@ == document_id_bytes(id),
{
    let b0 = (id % 256) as u8;
    let b1 = ((id / 256) % 256) as u8;
    let b2 = ((id / 65536) % 256) as u8;
    let b3 = ((id / 16777216) % 256) as u8;
    let doc_id: DocumentID = [
        b0, b1, b2, b3, 0, 0, 0, 0, 0, 0, 0, 0, 0, 0, 0, 0, 0, 0, 0, 0, 0, 0, 0, 0, 0, 0, 0, 0,
        0, 0, 0, 0,
    ];
    assert(doc_id@ =~= document_id_bytes(id));
    doc_id
}

/// Documents with different numbers have different identifiers.
pub proof fn lemma_document_ids_distinct(a: u32, b: u32)
    requires
        a != b,
    ensures
        document_id_bytes(a) != document_id_bytes(b),
{
    let x = document_id_bytes(a);
    let y = document_id_bytes(b);
    assert(a == (a % 256) + 256 * ((a / 256) % 256) + 65536 * ((a / 65536) % 256) + 16777216 * ((a
        / 16777216) % 256)) by (nonlinear_arith);
    assert(b == (b % 256) + 256 * ((b / 256) % 256) + 65536 * ((b / 65536) % 256) + 16777216 * ((b
        / 16777216) % 256)) by (nonlinear_arith);
    if x == y {
        assert(x[0] == y[0] && x[1] == y[1] && x[2] == y[2] && x[3] == y[3]);
    }
}

} // verus!
