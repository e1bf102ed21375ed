use wubrag::chunking::{
    chunk_all_documents, chunk_document, chunk_with_treesitter, chunks_from_captures,
    compute_chunk_id, get_query_from_extension, language_for_extension, naive_chunk_document,
    Chunk,
};
use wubrag::document::{document_id, Document, DocumentMetadata};
use wubrag::syntax::{SourceLanguage, SyntaxCapture, CPP_QUERY, RUST_QUERY};

fn hex(bytes: &[u8]) -> String {
    bytes.iter().map(|b| format!("{:02x}", b)).collect()
}

fn doc(id: u32, path: &str, ext: &str, text: &str) -> Document {
    Document {
        id,
        path: path.to_string(),
        text: text.to_string(),
        meta: DocumentMetadata { extension: ext.to_string(), size_bytes: text.len() as u64 },
    }
}

fn types(chunks: &[Chunk]) -> Vec<&'static str> {
    chunks.iter().map(|c| c.chunk_type).collect()
}

fn texts(chunks: &[Chunk]) -> Vec<String> {
    chunks.iter().map(|c| c.text.clone()).collect()
}

#[test]
fn test_chunks() {
    let docs = vec![
        doc(0, "src/main.rs", "rs", "fn main() {\n    println!(\"hi\");\n}\n\nstruct Point { x: i32 }\n"),
        doc(1, "README.md", "md", "# Title\n\nSome words.\n"),
        doc(2, "empty.txt", "txt", ""),
    ];
    let _ = chunk_all_documents(&docs);
    assert!(true);
}

#[test]
fn compute_chunk_id_is_sha256_of_document_id_then_text() {
    let id = compute_chunk_id(&[0u8; 32], "abc");
    assert_eq!(hex(&id), "365aa7d8f7f9402c4b9434502b4cc89ddb09fe50d7cd95b493b834c62d5a5370");
}

#[test]
fn paragraphs_become_chunks() {
    let chunks = naive_chunk_document("first para\n\nsecond para", document_id(1));
    assert_eq!(types(&chunks), vec!["paragraph", "paragraph"]);
    assert_eq!(texts(&chunks), vec!["first para".to_string(), "second para".to_string()]);
    assert_eq!(chunks[0].char_count, 10);
    assert_eq!(chunks[0].doc_id, document_id(1));
    assert_eq!(hex(&chunks[0].id), "8629ec6bbdd03463427dea732fc57d833f746f4e70c073b5f9cb643233972243");
}

#[test]
fn paragraphs_keep_their_whitespace() {
    let chunks = naive_chunk_document("  a  \n\n\nb\n", document_id(0));
    assert_eq!(texts(&chunks), vec!["  a  ".to_string(), "\nb\n".to_string()]);
    assert_eq!(chunks[1].char_count, 3);
}

#[test]
fn blank_pieces_are_skipped() {
    let chunks = naive_chunk_document("one\n\n   \n\n\n\ntwo", document_id(0));
    assert_eq!(texts(&chunks), vec!["one".to_string(), "two".to_string()]);
}

#[test]
fn blank_document_becomes_one_document_chunk() {
    let chunks = naive_chunk_document("  \n\n  ", document_id(1));
    assert_eq!(chunks.len(), 1);
    assert_eq!(chunks[0].chunk_type, "document");
    assert_eq!(chunks[0].text, "");
    assert_eq!(chunks[0].char_count, 6);
    assert_eq!(hex(&chunks[0].id), "80843f327253e517eb87a2d6e6bef920dd7cc8237da7ae70be8208776b917dc6");
}

#[test]
fn empty_document_becomes_one_document_chunk() {
    let chunks = naive_chunk_document("", document_id(3));
    assert_eq!(types(&chunks), vec!["document"]);
    assert_eq!(chunks[0].char_count, 0);
}

#[test]
fn unicode_whitespace_is_blank() {
    let chunks = naive_chunk_document("\u{a0}\u{3000}\t", document_id(0));
    assert_eq!(types(&chunks), vec!["document"]);
    assert_eq!(chunks[0].text, "");
}

#[test]
fn char_count_is_in_bytes() {
    let chunks = naive_chunk_document("h\u{e9}llo\n\nw\u{f6}rld \u{1f600}", document_id(0));
    assert_eq!(texts(&chunks), vec!["h\u{e9}llo".to_string(), "w\u{f6}rld \u{1f600}".to_string()]);
    assert_eq!(chunks[0].char_count, 6);
    assert_eq!(chunks[1].char_count, 11);
}

#[test]
fn queries_by_extension() {
    assert_eq!(get_query_from_extension("rs").as_deref(), Some(RUST_QUERY));
    assert_eq!(get_query_from_extension("cu").as_deref(), Some(CPP_QUERY));
    assert_eq!(get_query_from_extension("cpp").as_deref(), Some(CPP_QUERY));
    assert!(get_query_from_extension("html").unwrap().contains("(element) @chunk"));
    assert!(get_query_from_extension("py").unwrap().contains("(class_definition) @chunk"));
    assert!(get_query_from_extension("js").unwrap().contains("(arrow_function) @chunk"));
    assert!(get_query_from_extension("c").unwrap().contains("(union_specifier) @chunk"));
    assert_eq!(get_query_from_extension("h"), None);
    assert_eq!(get_query_from_extension("hpp"), None);
    assert_eq!(get_query_from_extension(""), None);
    assert_eq!(get_query_from_extension("RS"), None);
}

#[test]
fn languages_by_extension() {
    assert_eq!(language_for_extension("rs"), Some(SourceLanguage::Rust));
    assert_eq!(language_for_extension("cpp"), Some(SourceLanguage::Cpp));
    assert_eq!(language_for_extension("hpp"), Some(SourceLanguage::Cpp));
    assert_eq!(language_for_extension("c"), Some(SourceLanguage::C));
    assert_eq!(language_for_extension("h"), Some(SourceLanguage::C));
    assert_eq!(language_for_extension("js"), Some(SourceLanguage::JavaScript));
    assert_eq!(language_for_extension("py"), Some(SourceLanguage::Python));
    assert_eq!(language_for_extension("cu"), Some(SourceLanguage::Cuda));
    assert_eq!(language_for_extension("html"), None);
    assert_eq!(language_for_extension("md"), None);
}

#[test]
fn rust_items_become_chunks() {
    let text = "use std::io;\n\nfn main() {\n    let x = 1;\n}\n\n/// doc\nstruct Point { x: i32 }\n\nimpl Point {\n    fn f(&self) {}\n}\n";
    let chunks = chunk_document(&doc(4, "a.rs", "rs", text));
    assert_eq!(types(&chunks), vec!["function_item", "struct_item", "impl_item"]);
    assert_eq!(chunks[0].text, "fn main() {\n    let x = 1;\n}");
    assert_eq!(chunks[1].text, "struct Point { x: i32 }");
    assert_eq!(chunks[0].char_count, chunks[0].text.len());
    assert_eq!(chunks[0].id, compute_chunk_id(&document_id(4), "fn main() {\n    let x = 1;\n}"));
    assert!(chunks.iter().all(|c| c.doc_id == document_id(4)));
}

#[test]
fn nested_rust_items_are_not_chunks() {
    let text = "mod m {\n    fn inner() {}\n}\n";
    let chunks = chunk_document(&doc(0, "m.rs", "rs", text));
    assert_eq!(types(&chunks), vec!["mod_item"]);
    assert_eq!(chunks[0].text, "mod m {\n    fn inner() {}\n}");
}

#[test]
fn python_definitions_become_chunks() {
    let text = "import os\n\ndef f():\n    return 1\n\nclass A:\n    def g(self):\n        pass\n";
    let chunks = chunk_document(&doc(0, "a.py", "py", text));
    assert_eq!(types(&chunks), vec!["function_definition", "class_definition"]);
    assert_eq!(chunks[0].text, "def f():\n    return 1");
}

#[test]
fn rust_without_items_becomes_document_chunk() {
    let text = "  // only a comment\n";
    let chunks = chunk_document(&doc(0, "c.rs", "rs", text));
    assert_eq!(types(&chunks), vec!["document"]);
    assert_eq!(chunks[0].text, "// only a comment");
    assert_eq!(chunks[0].char_count, text.len());
}

#[test]
fn header_without_query_becomes_document_chunk() {
    let text = "int f(void);\n\nint g(void);\n";
    let chunks = chunk_document(&doc(0, "a.h", "h", text));
    assert_eq!(types(&chunks), vec!["document"]);
    let chunks = chunk_document(&doc(0, "a.hpp", "hpp", text));
    assert_eq!(types(&chunks), vec!["document"]);
}

#[test]
fn extension_without_grammar_is_chunked_by_paragraph() {
    let chunks = chunk_document(&doc(0, "a.html", "html", "<p>a</p>\n\n<p>b</p>"));
    assert_eq!(types(&chunks), vec!["paragraph", "paragraph"]);
}

#[test]
fn chunk_with_treesitter_uses_the_query_of_the_extension() {
    let d = doc(7, "x.rs", "rs", "fn a() {}\n");
    let chunks = chunk_with_treesitter(&d, SourceLanguage::Rust);
    assert_eq!(types(&chunks), vec!["function_item"]);
    let d = doc(7, "x.md", "md", "fn a() {}\n");
    let chunks = chunk_with_treesitter(&d, SourceLanguage::Rust);
    assert_eq!(types(&chunks), vec!["document"]);
}

#[test]
fn captures_become_chunks() {
    let text = "xx\nfn a() {}  \n";
    let captures = vec![
        SyntaxCapture { start: 3, end: 14, kind: "function_item", parent_kind: Some("source_file") },
        SyntaxCapture { start: 3, end: 5, kind: "identifier", parent_kind: Some("function_item") },
        SyntaxCapture { start: 0, end: 2, kind: "expression", parent_kind: None },
        SyntaxCapture { start: 12, end: 14, kind: "blank", parent_kind: Some("module") },
        SyntaxCapture { start: 10, end: 99, kind: "outside", parent_kind: Some("module") },
    ];
    let chunks = chunks_from_captures(text, document_id(2), &captures);
    assert_eq!(types(&chunks), vec!["function_item"]);
    assert_eq!(chunks[0].text, "fn a() {}");
    assert_eq!(chunks[0].char_count, 11);
    assert_eq!(chunks[0].id, compute_chunk_id(&document_id(2), "fn a() {}  "));
}

#[test]
fn captures_splitting_a_character_are_skipped() {
    let text = "\u{e9}t\u{e9}";
    let captures = vec![
        SyntaxCapture { start: 1, end: 3, kind: "split", parent_kind: Some("module") },
        SyntaxCapture { start: 2, end: 5, kind: "whole", parent_kind: Some("module") },
    ];
    let chunks = chunks_from_captures(text, document_id(0), &captures);
    assert_eq!(types(&chunks), vec!["whole"]);
    assert_eq!(chunks[0].text, "t\u{e9}");
}

#[test]
fn no_captures_give_document_chunk() {
    let chunks = chunks_from_captures(" body ", document_id(0), &vec![]);
    assert_eq!(types(&chunks), vec!["document"]);
    assert_eq!(chunks[0].text, "body");
}

#[test]
fn all_documents_in_order_and_indexed() {
    let docs = vec![
        doc(0, "a.txt", "txt", "same\n\nother\n\nsame"),
        doc(1, "b.rs", "rs", "fn f() {}\n"),
    ];
    let (chunks, index) = chunk_all_documents(&docs);
    assert_eq!(texts(&chunks), vec!["same".to_string(), "other".to_string(), "same".to_string(), "fn f() {}".to_string()]);
    assert_eq!(chunks[0].id, chunks[2].id);
    assert_eq!(index.get(&chunks[0].id), Some(2));
    assert_eq!(index.get(&chunks[1].id), Some(1));
    assert_eq!(index.get(&chunks[3].id), Some(3));
    assert_eq!(index.get(&[7u8; 32]), None);
}

#[test]
fn every_document_yields_a_chunk() {
    let docs: Vec<Document> = (0..5).map(|i| doc(i, "f", "txt", if i % 2 == 0 { "" } else { "x" })).collect();
    let (chunks, _) = chunk_all_documents(&docs);
    assert_eq!(chunks.len(), 5);
    for (i, c) in chunks.iter().enumerate() {
        assert_eq!(c.doc_id, document_id(i as u32));
    }
    let (none, _) = chunk_all_documents(&[]);
    assert!(none.is_empty());
}
