use wubrag::chunking::naive_chunk_document;
use wubrag::document::document_id;
use wubrag::embedding::{embedding_batches, EMBEDDING_BATCH_SIZE};
use wubrag::service::{
    describe_chunk, doc_id_hex_prefix, index_reply, query_chunk, NO_CHUNKS_MESSAGE,
    NO_DOCUMENTS_MESSAGE,
};
use wubrag::Meta;

#[test]
fn hex_prefix_of_document_id() {
    assert_eq!(doc_id_hex_prefix(&document_id(0x0a0b0c0d)), "0d0c0b0a00000000");
    let mut id = [0u8; 32];
    for (i, b) in id.iter_mut().enumerate() {
        *b = (i as u8) * 17 + 0xa0;
    }
    assert_eq!(doc_id_hex_prefix(&id), "a0b1c2d3e4f50617");
}

#[test]
fn chunk_description() {
    let chunks = naive_chunk_document("text", document_id(1));
    assert_eq!(describe_chunk(&chunks[0]), "File: 0100000000000000\nType: paragraph\n---\ntext\n");
}

#[test]
fn query_chunk_has_zero_ids() {
    let c = query_chunk("h\u{e9}");
    assert_eq!(c.id, [0u8; 32]);
    assert_eq!(c.doc_id, [0u8; 32]);
    assert_eq!(c.text, "h\u{e9}");
    assert_eq!(c.chunk_type, "query");
    assert_eq!(c.char_count, 3);
}

#[test]
fn index_replies() {
    assert_eq!(index_reply(0, 0), (false, NO_DOCUMENTS_MESSAGE));
    assert_eq!(index_reply(0, 3), (false, NO_DOCUMENTS_MESSAGE));
    assert_eq!(index_reply(2, 0), (false, NO_CHUNKS_MESSAGE));
    assert_eq!(index_reply(2, 3), (true, ""));
}

#[test]
fn embedding_batches_cover_all_chunks() {
    assert_eq!(EMBEDDING_BATCH_SIZE, 256);
    assert!(embedding_batches(0).is_empty());
    assert_eq!(embedding_batches(1), vec![(0, 1)]);
    assert_eq!(embedding_batches(256), vec![(0, 256)]);
    assert_eq!(embedding_batches(257), vec![(0, 256), (256, 257)]);
    assert_eq!(embedding_batches(600), vec![(0, 256), (256, 512), (512, 600)]);
}

#[test]
fn document_ids_are_little_endian() {
    let id = document_id(258);
    assert_eq!(&id[..4], &[2, 1, 0, 0]);
    assert!(id[4..].iter().all(|b| *b == 0));
    assert_ne!(document_id(1), document_id(256));
}

#[test]
fn meta_can_be_built() {
    let m = Meta::new(Some("rs".to_string()), 12);
    let d = wubrag::Document { id: "src/a.rs".to_string(), text: String::new(), meta: m.clone() };
    assert_eq!(format!("{:?}", d.meta), format!("{:?}", m));
}
