//! Chunking documents: by paragraph, or by top-level syntax item where a
//! grammar for the document's language is at hand.

use crate::document::{document_id, document_id_bytes, Document, DocumentID};
use crate::id_index::{id_positions, ChunkIdIndex};
use crate::hashing::{sha256, sha256_digest};
use crate::syntax::{
    captures_view, grammar, query_syntax_captures, syntax_captures, SourceLanguage, SyntaxCapture,
    SyntaxCaptureView, CPP_QUERY, C_QUERY, HTML_QUERY, JAVASCRIPT_QUERY, PYTHON_QUERY, RUST_QUERY,
};
use crate::text::{
    blank_line_pieces, byte_substring, char_substring, char_table, is_blank,
    lemma_split_pieces_stand_in_text, lemma_trim_not_blank, offsets_of, split_blank_lines,
    str_equals, trim, trimmed_bounds,
};
use vstd::prelude::*;
use vstd::utf8::*;

verus! {

broadcast use vstd::utf8::group_utf8_lib;

/// The content-addressed identifier of a chunk.
pub type ChunkID = [u8; 32];

/// A piece of a document, the unit of retrieval.
#[derive(Debug, Clone)]
pub struct Chunk {
    /// `sha256` of the document identifier followed by the chunk's raw bytes.
    pub id: ChunkID,
    /// Identifier of the document the chunk was taken from.
    pub doc_id: DocumentID,
    /// Text of the chunk.
    pub text: String,
    /// `"paragraph"`, `"document"`, `"query"`, or the kind of syntax node.
    pub chunk_type: &'static str,
    /// Length in bytes of the raw text the chunk was taken from.
    pub char_count: usize,
}

/// A chunk as a mathematical value.
pub struct ChunkView {
    pub id: Seq<u8>,
    pub doc_id: Seq<u8>,
    pub text: Seq<char>,
    pub chunk_type: Seq<char>,
    pub char_count: nat,
}

impl View for Chunk {
    type V = ChunkView;

    open spec fn view(&self) -> ChunkView {
        ChunkView {
            id: self.id@,
            doc_id: self.doc_id@,
            text: self.text@,
            chunk_type: self.chunk_type@,
            char_count: self.char_count as nat,
        }
    }
}

/// The views of a sequence of chunks.
pub open spec fn chunks_view(chunks: Seq<Chunk>) -> Seq<ChunkView> {
    chunks.map_values(|c: Chunk| c@)
}

/// The identifier of a chunk taken from the bytes `raw` of the document
/// identified by `doc_id`.
pub open spec fn chunk_id_of(doc_id: Seq<u8>, raw: Seq<u8>) -> Seq<u8> {
    sha256(doc_id + raw)
}

/// The chunk for the paragraph `p`.
pub open spec fn paragraph_chunk(doc_id: Seq<u8>, p: Seq<char>) -> ChunkView {
    ChunkView {
        id: chunk_id_of(doc_id, encode_utf8(p)),
        doc_id,
        text: p,
        chunk_type: "paragraph"@,
        char_count: encode_utf8(p).len(),
    }
}

/// The single chunk that stands for a whole document where nothing smaller
/// was found: its text trimmed, its identifier and size taken from the text
/// as it is.
pub open spec fn whole_document_chunk(doc_id: Seq<u8>, text: Seq<char>) -> ChunkView {
    ChunkView {
        id: chunk_id_of(doc_id, encode_utf8(text)),
        doc_id,
        text: trim(text),
        chunk_type: "document"@,
        char_count: encode_utf8(text).len(),
    }
}

/// The paragraphs of `text`: the pieces between blank lines that hold
/// something other than whitespace, in order.
pub open spec fn paragraphs(text: Seq<char>) -> Seq<Seq<char>> {
    split_blank_lines(text).filter(|p: Seq<char>| !is_blank(p))
}

/// Chunking by paragraph: one chunk per paragraph, or the whole document when
/// it has no paragraph.
pub open spec fn naive_chunks(doc_id: Seq<u8>, text: Seq<char>) -> Seq<ChunkView> {
    let ps = paragraphs(text);
    if ps.len() == 0 {
        seq![whole_document_chunk(doc_id, text)]
    } else {
        ps.map_values(|p: Seq<char>| paragraph_chunk(doc_id, p))
    }
}

/// The identifier of the chunk taken from `chunk_text` in the document
/// identified by `doc_id`.
pub fn compute_chunk_id(doc_id: &DocumentID, chunk_text: &str) -> (id: ChunkID)
    ensures
        id@ == chunk_id_of(doc_id@, encode_utf8(chunk_text@)),
        id@ == sha256(doc_id@ + encode_utf8(chunk_text@)),
{
    let bytes = chunk_text.as_bytes();
    let mut data: Vec<u8> = Vec::new();
    for i in 0..32usize
        invariant
            data@ == doc_id@.take(i as int),
    {
        data.push(doc_id[i]);
        proof {
            assert(doc_id@.take(i + 1) =~= doc_id@.take(i as int).push(doc_id@[i as int]));
        }
    }
    for i in 0..bytes.len()
        invariant
            data@ == doc_id@ + bytes@.take(i as int),
    {
        data.push(bytes[i]);
        proof {
            assert(bytes@.take(i + 1) =~= bytes@.take(i as int).push(bytes@[i as int]));
        }
    }
    proof {
        assert(doc_id@.take(32) =~= doc_id@);
        assert(bytes@.take(bytes@.len() as int) =~= bytes@);
    }
    sha256_digest(data.as_slice())
}

/// The chunk for `raw`, a piece of the document identified by `doc_id`,
/// whose text is `text`.
fn make_chunk(doc_id: &DocumentID, raw: &str, text: String, chunk_type: &'static str) -> (chunk:
    Chunk)
    ensures
        chunk@ == (ChunkView {
            id: chunk_id_of(doc_id@, encode_utf8(raw@)),
            doc_id: doc_id@,
            text: text@,
            chunk_type: chunk_type@,
            char_count: encode_utf8(raw@).len(),
        }),
{
    let id = compute_chunk_id(doc_id, raw);
    let char_count = raw.as_bytes().len();
    Chunk { id, doc_id: *doc_id, text, chunk_type, char_count }
}

/// Chunks `doc_text` by paragraph: each piece between blank lines (`"\n\n"`)
/// that is not all whitespace becomes a `"paragraph"` chunk, as it is; a
/// document without such a piece becomes one `"document"` chunk.
pub fn naive_chunk_document(doc_text: &str, doc_id: DocumentID) -> (chunks: Vec<Chunk>)
    ensures
        chunks_view(chunks@) == naive_chunks(doc_id@, doc_text@),
{
    let ghost s = doc_text@;
    let ghost pieces = split_blank_lines(s);
    let ghost keep = |p: Seq<char>| !is_blank(p);
    let ghost to_chunk = |p: Seq<char>| paragraph_chunk(doc_id@, p);
    let (chars, offsets) = char_table(doc_text);
    let ranges = blank_line_pieces(&chars);
    let mut chunks: Vec<Chunk> = Vec::new();
    proof {
        assert(pieces.take(0) =~= Seq::<Seq<char>>::empty());
        assert(pieces.take(0).filter(keep) =~= Seq::<Seq<char>>::empty());
        assert(chunks_view(chunks@) =~= pieces.take(0).filter(keep).map_values(to_chunk));
    }
    for j in 0..ranges.len()
        invariant
            chars@ == s,
            doc_text@ == s,
            keep == (|p: Seq<char>| !is_blank(p)),
            to_chunk == (|p: Seq<char>| paragraph_chunk(doc_id@, p)),
            offsets_of(s, offsets@),
            ranges@.len() == pieces.len(),
            forall|j: int|
                0 <= j < ranges@.len() ==> {
                    &&& (#[trigger] ranges@[j]).0 <= ranges@[j].1 <= s.len()
                    &&& s.subrange(ranges@[j].0 as int, ranges@[j].1 as int) == pieces[j]
                },
            chunks_view(chunks@) == pieces.take(j as int).filter(keep).map_values(to_chunk),
    {
        let (a, b) = ranges[j];
        let (k, _m) = trimmed_bounds(&chars, a, b);
        let ghost before = pieces.take(j as int);
        proof {
            assert(ranges@[j as int].0 <= ranges@[j as int].1 <= s.len());
            assert(pieces.take(j + 1) =~= before.push(pieces[j as int]));
            before.lemma_filter_push(pieces[j as int], keep);
            assert(chars@.subrange(a as int, b as int) == pieces[j as int]);
            assert((k < b) == !is_blank(pieces[j as int]));
            assert((k < b) == keep(pieces[j as int]));
        }
        if k < b {
            let para = char_substring(doc_text, &offsets, a, b);
            let chunk = make_chunk(&doc_id, para, para.to_owned(), "paragraph");
            let ghost old_chunks = chunks@;
            chunks.push(chunk);
            proof {
                let f = before.filter(keep);
                assert(chunks_view(chunks@) =~= chunks_view(old_chunks).push(chunk@));
                assert(f.push(pieces[j as int]).map_values(to_chunk) =~= f.map_values(to_chunk).push(to_chunk(pieces[j as int])));
                assert(para@ == pieces[j as int]);
                assert(chunks@.last()@ == to_chunk(pieces[j as int]));
                assert(before.push(pieces[j as int]).filter(keep) == f.push(pieces[j as int]));
                assert(chunks_view(chunks@) =~= f.push(pieces[j as int]).map_values(to_chunk));
            }
        } else {
            proof {
                assert(chunks_view(chunks@) =~= before.push(pieces[j as int]).filter(keep).map_values(to_chunk));
            }
        }
    }
    proof {
        assert(pieces.take(ranges@.len() as int) =~= pieces);
    }
    if chunks.len() == 0 {
        let chunk = whole_document(doc_text, &doc_id);
        chunks.push(chunk);
        proof {
            assert(paragraphs(s).map_values(to_chunk).len() == 0);
            assert(chunks_view(chunks@) =~= seq![whole_document_chunk(doc_id@, s)]);
        }
    }
    chunks
}

/// The chunk that stands for the whole of `doc_text`.
fn whole_document(doc_text: &str, doc_id: &DocumentID) -> (chunk: Chunk)
    ensures
        chunk@ == whole_document_chunk(doc_id@, doc_text@),
{
    let (chars, offsets) = char_table(doc_text);
    let n = chars.len();
    let (k, m) = trimmed_bounds(&chars, 0, n);
    proof {
        assert(doc_text@.subrange(0, n as int) =~= doc_text@);
    }
    let trimmed = char_substring(doc_text, &offsets, k, m);
    make_chunk(doc_id, doc_text, trimmed.to_owned(), "document")
}

/// The query that picks out the top-level items of files with extension
/// `ext`, if there is one.
pub open spec fn query_for_extension(ext: Seq<char>) -> Option<Seq<char>> {
    if ext == "rs"@ {
        Some(RUST_QUERY@)
    } else if ext == "py"@ {
        Some(PYTHON_QUERY@)
    } else if ext == "js"@ {
        Some(JAVASCRIPT_QUERY@)
    } else if ext == "c"@ {
        Some(C_QUERY@)
    } else if ext == "cpp"@ || ext == "cu"@ {
        Some(CPP_QUERY@)
    } else if ext == "html"@ {
        Some(HTML_QUERY@)
    } else {
        None
    }
}

/// The query for `ext`, or the empty query where there is none.
pub open spec fn query_or_empty(ext: Seq<char>) -> Seq<char> {
    match query_for_extension(ext) {
        Some(q) => q,
        None => Seq::<char>::empty(),
    }
}

/// The tree-sitter query that picks out the top-level items of files with the
/// given extension: Rust (`rs`), Python (`py`), JavaScript (`js`), C (`c`),
/// C++ and CUDA (`cpp`, `cu`) and HTML (`html`).
pub fn get_query_from_extension(extension: &str) -> (query: Option<String>)
    ensures
        query matches Some(q) ==> query_for_extension(extension@) == Some(q@),
        query is None ==> query_for_extension(extension@) is None,
{
    if str_equals(extension, "rs") {
        Some(RUST_QUERY.to_owned())
    } else if str_equals(extension, "py") {
        Some(PYTHON_QUERY.to_owned())
    } else if str_equals(extension, "js") {
        Some(JAVASCRIPT_QUERY.to_owned())
    } else if str_equals(extension, "c") {
        Some(C_QUERY.to_owned())
    } else if str_equals(extension, "cpp") || str_equals(extension, "cu") {
        Some(CPP_QUERY.to_owned())
    } else if str_equals(extension, "html") {
        Some(HTML_QUERY.to_owned())
    } else {
        None
    }
}

/// The language whose grammar parses files with extension `ext`, if any.
pub open spec fn language_of_extension(ext: Seq<char>) -> Option<SourceLanguage> {
    if ext == "rs"@ {
        Some(SourceLanguage::Rust)
    } else if ext == "cpp"@ || ext == "hpp"@ {
        Some(SourceLanguage::Cpp)
    } else if ext == "c"@ || ext == "h"@ {
        Some(SourceLanguage::C)
    } else if ext == "js"@ {
        Some(SourceLanguage::JavaScript)
    } else if ext == "py"@ {
        Some(SourceLanguage::Python)
    } else if ext == "cu"@ {
        Some(SourceLanguage::Cuda)
    } else {
        None
    }
}

/// The language whose grammar parses files with the given extension: `rs`,
/// `cpp` and `hpp`, `c` and `h`, `js`, `py`, `cu`.
pub fn language_for_extension(extension: &str) -> (language: Option<SourceLanguage>)
    ensures
        language == language_of_extension(extension@),
{
    if str_equals(extension, "rs") {
        Some(SourceLanguage::Rust)
    } else if str_equals(extension, "cpp") || str_equals(extension, "hpp") {
        Some(SourceLanguage::Cpp)
    } else if str_equals(extension, "c") || str_equals(extension, "h") {
        Some(SourceLanguage::C)
    } else if str_equals(extension, "js") {
        Some(SourceLanguage::JavaScript)
    } else if str_equals(extension, "py") {
        Some(SourceLanguage::Python)
    } else if str_equals(extension, "cu") {
        Some(SourceLanguage::Cuda)
    } else {
        None
    }
}

/// The bytes of the source that a capture covers.
pub open spec fn capture_bytes(bytes: Seq<u8>, c: SyntaxCaptureView) -> Seq<u8> {
    bytes.subrange(c.start as int, c.end as int)
}

/// The capture covers a range of whole characters of the source.
pub open spec fn capture_in_text(bytes: Seq<u8>, c: SyntaxCaptureView) -> bool {
    &&& c.start <= c.end <= bytes.len()
    &&& is_char_boundary(bytes, c.start as int)
    &&& is_char_boundary(bytes, c.end as int)
}

/// The text of the source that a capture covers.
pub open spec fn capture_text(bytes: Seq<u8>, c: SyntaxCaptureView) -> Seq<char> {
    decode_utf8(capture_bytes(bytes, c))
}

/// The captured node stands directly under the root of a Rust
/// (`source_file`) or Python (`module`) tree.
pub open spec fn is_top_level(c: SyntaxCaptureView) -> bool {
    c.parent_kind == Some("source_file"@) || c.parent_kind == Some("module"@)
}

/// The capture becomes a chunk: it is top level and covers text that is not
/// all whitespace.
pub open spec fn capture_yields_chunk(bytes: Seq<u8>, c: SyntaxCaptureView) -> bool {
    &&& is_top_level(c)
    &&& capture_in_text(bytes, c)
    &&& !is_blank(capture_text(bytes, c))
}

/// The chunk for a capture: the captured text trimmed, filed under the
/// capture's kind; identifier and size from the captured bytes as they are.
pub open spec fn capture_chunk(doc_id: Seq<u8>, bytes: Seq<u8>, c: SyntaxCaptureView) -> ChunkView {
    ChunkView {
        id: chunk_id_of(doc_id, capture_bytes(bytes, c)),
        doc_id,
        text: trim(capture_text(bytes, c)),
        chunk_type: c.kind,
        char_count: (c.end - c.start) as nat,
    }
}

/// Chunking by syntax: one chunk per capture that yields one, in order, or the
/// whole document when none does.
pub open spec fn syntax_chunks(doc_id: Seq<u8>, text: Seq<char>, captures: Seq<SyntaxCaptureView>) -> Seq<ChunkView> {
    let bytes = encode_utf8(text);
    let found = captures.filter(|c: SyntaxCaptureView| capture_yields_chunk(bytes, c)).map_values(
        |c: SyntaxCaptureView| capture_chunk(doc_id, bytes, c),
    );
    if found.len() == 0 {
        seq![whole_document_chunk(doc_id, text)]
    } else {
        found
    }
}

fn is_top_level_capture(c: &SyntaxCapture) -> (top: bool)
    ensures
        top == is_top_level(c@),
{
    match c.parent_kind {
        Some(k) => str_equals(k, "source_file") || str_equals(k, "module"),
        None => false,
    }
}

/// Chunks `doc_text` by the syntax captures found in it: every capture of a
/// node directly under the root whose text is not all whitespace becomes a
/// chunk of the node's kind holding the trimmed text; when there is none, the
/// whole document becomes one `"document"` chunk.
pub fn chunks_from_captures(doc_text: &str, doc_id: DocumentID, captures: &Vec<SyntaxCapture>) -> (chunks: Vec<Chunk>)
    ensures
        chunks_view(chunks@) == syntax_chunks(doc_id@, doc_text@, captures_view(captures@)),
{
    let ghost bytes = encode_utf8(doc_text@);
    let ghost caps = captures_view(captures@);
    let ghost keep = |c: SyntaxCaptureView| capture_yields_chunk(bytes, c);
    let ghost to_chunk = |c: SyntaxCaptureView| capture_chunk(doc_id@, bytes, c);
    let n = doc_text.as_bytes().len();
    let mut chunks: Vec<Chunk> = Vec::new();
    proof {
        assert(caps.take(0) =~= Seq::<SyntaxCaptureView>::empty());
        assert(caps.take(0).filter(keep) =~= Seq::<SyntaxCaptureView>::empty());
        assert(chunks_view(chunks@) =~= caps.take(0).filter(keep).map_values(to_chunk));
    }
    for i in 0..captures.len()
        invariant
            bytes == encode_utf8(doc_text@),
            n == bytes.len(),
            caps == captures_view(captures@),
            keep == (|c: SyntaxCaptureView| capture_yields_chunk(bytes, c)),
            to_chunk == (|c: SyntaxCaptureView| capture_chunk(doc_id@, bytes, c)),
            chunks_view(chunks@) == caps.take(i as int).filter(keep).map_values(to_chunk),
    {
        let c = captures[i];
        let ghost before = caps.take(i as int);
        let ghost cv = caps[i as int];
        proof {
            assert(cv == c@);
            assert(caps.take(i + 1) =~= before.push(cv));
            before.lemma_filter_push(cv, keep);
        }
        let ghost old_chunks = chunks@;
        if is_top_level_capture(&c) && c.start <= c.end && c.end <= n && doc_text.is_char_boundary(
            c.start,
        ) && doc_text.is_char_boundary(c.end) {
            let raw = byte_substring(doc_text, c.start, c.end);
            let (chars, offsets) = char_table(raw);
            let rn = chars.len();
            let (k, m) = trimmed_bounds(&chars, 0, rn);
            proof {
                assert(raw@ == capture_text(bytes, cv));
                assert(raw@.subrange(0, rn as int) =~= raw@);
            }
            if k < rn {
                let trimmed = char_substring(raw, &offsets, k, m);
                let chunk = make_chunk(&doc_id, raw, trimmed.to_owned(), c.kind);
                chunks.push(chunk);
                proof {
                    let f = before.filter(keep);
                    assert(chunk@ == to_chunk(cv));
                    assert(chunks_view(chunks@) =~= chunks_view(old_chunks).push(chunk@));
                    assert(f.push(cv).map_values(to_chunk) =~= f.map_values(to_chunk).push(to_chunk(cv)));
                }
            }
        }
    }
    proof {
        assert(caps.take(captures@.len() as int) =~= caps);
    }
    if chunks.len() == 0 {
        let chunk = whole_document(doc_text, &doc_id);
        chunks.push(chunk);
        proof {
            assert(chunks_view(chunks@) =~= seq![whole_document_chunk(doc_id@, doc_text@)]);
        }
    }
    chunks
}

/// Chunking by syntax with the grammar of `language`, falling back to
/// chunking by paragraph when tree-sitter yields nothing.
pub open spec fn syntax_or_naive_chunks(
    doc_id: Seq<u8>,
    text: Seq<char>,
    ext: Seq<char>,
    language: SourceLanguage,
) -> Seq<ChunkView> {
    match syntax_captures(language, text, query_or_empty(ext)) {
        Some(captures) => syntax_chunks(doc_id, text, captures),
        None => naive_chunks(doc_id, text),
    }
}

/// The chunks of a document: by syntax where its extension names a language
/// with a grammar, by paragraph otherwise.
pub open spec fn document_chunks(doc: Document) -> Seq<ChunkView> {
    let doc_id = document_id_bytes(doc.id);
    match language_of_extension(doc.meta.extension@) {
        Some(language) => syntax_or_naive_chunks(doc_id, doc.text@, doc.meta.extension@, language),
        None => naive_chunks(doc_id, doc.text@),
    }
}

/// The chunks of a collection of documents, document after document.
pub open spec fn collection_chunks(docs: Seq<Document>) -> Seq<ChunkView>
    decreases docs.len(),
{
    if docs.len() == 0 {
        Seq::<ChunkView>::empty()
    } else {
        collection_chunks(docs.drop_last()) + document_chunks(docs.last())
    }
}

/// The identifiers of a sequence of chunks.
pub open spec fn chunk_ids(chunks: Seq<ChunkView>) -> Seq<Seq<u8>> {
    chunks.map_values(|c: ChunkView| c.id)
}

/// Chunks `doc` by syntax with the grammar of `language`: the query for the
/// document's extension (the empty query where there is none) is run over
/// the parsed text; where tree-sitter yields nothing, the document is chunked
/// by paragraph.
pub fn chunk_with_treesitter(doc: &Document, language: SourceLanguage) -> (chunks: Vec<Chunk>)
    ensures
        chunks_view(chunks@) == syntax_or_naive_chunks(
            document_id_bytes(doc.id),
            doc.text@,
            doc.meta.extension@,
            language,
        ),
{
    let doc_id = document_id(doc.id);
    let query = match get_query_from_extension(doc.meta.extension.as_str()) {
        Some(q) => q,
        None => String::new(),
    };
    let g = grammar(language);
    match query_syntax_captures(&g, doc.text.as_str(), query.as_str()) {
        Some(captures) => chunks_from_captures(doc.text.as_str(), doc_id, &captures),
        None => naive_chunk_document(doc.text.as_str(), doc_id),
    }
}

/// Chunks one document: by syntax where its extension names a language with
/// a grammar, by paragraph otherwise.
pub fn chunk_document(doc: &Document) -> (chunks: Vec<Chunk>)
    ensures
        chunks_view(chunks@) == document_chunks(*doc),
{
    match language_for_extension(doc.meta.extension.as_str()) {
        Some(language) => chunk_with_treesitter(doc, language),
        None => naive_chunk_document(doc.text.as_str(), document_id(doc.id)),
    }
}

/// Chunks every document, in order, and indexes the chunks by identifier:
/// each identifier leads to the position of the last chunk that carries it.
pub fn chunk_all_documents(docs: &[Document]) -> (result: (Vec<Chunk>, ChunkIdIndex))
    ensures
        chunks_view(result.0@) == collection_chunks(docs@),
        result.1.wf(),
        result.1@ == id_positions(chunk_ids(chunks_view(result.0@))),
{
    let mut chunks: Vec<Chunk> = Vec::new();
    for i in 0..docs.len()
        invariant
            chunks_view(chunks@) == collection_chunks(docs@.take(i as int)),
    {
        let mut more = chunk_document(&docs[i]);
        let ghost old_chunks = chunks@;
        let ghost added = more@;
        chunks.append(&mut more);
        proof {
            assert(docs@.take(i + 1).drop_last() =~= docs@.take(i as int));
            assert(docs@.take(i + 1).last() == docs@[i as int]);
            assert(chunks_view(chunks@) =~= chunks_view(old_chunks) + chunks_view(added));
        }
    }
    proof {
        assert(docs@.take(docs@.len() as int) =~= docs@);
    }
    let mut index = ChunkIdIndex::new();
    for i in 0..chunks.len()
        invariant
            index.wf(),
            index@ == id_positions(chunk_ids(chunks_view(chunks@)).take(i as int)),
    {
        index.insert(&chunks[i].id, i);
        proof {
            let ids = chunk_ids(chunks_view(chunks@));
            assert(ids.take(i + 1).drop_last() =~= ids.take(i as int));
            assert(ids.take(i + 1).last() == chunks@[i as int].id@);
        }
    }
    proof {
        let ids = chunk_ids(chunks_view(chunks@));
        assert(ids.take(chunks@.len() as int) =~= ids);
    }
    (chunks, index)
}

/// Every paragraph stands, as it is, in the text it was taken from.
pub proof fn lemma_paragraphs_stand_in_text(text: Seq<char>, j: int)
    requires
        0 <= j < paragraphs(text).len(),
    ensures
        exists|o: int|
            0 <= o && o + paragraphs(text)[j].len() <= text.len() && #[trigger] text.subrange(
                o,
                o + paragraphs(text)[j].len(),
            ) == paragraphs(text)[j],
{
    let pieces = split_blank_lines(text);
    let keep = |p: Seq<char>| !is_blank(p);
    let p = paragraphs(text)[j];
    assert(pieces.filter(keep).contains(p)) by {
        assert(pieces.filter(keep)[j] == p);
    }
    pieces.lemma_filter_contains_rev(keep, p);
    let k = choose|k: int| 0 <= k < pieces.len() && pieces[k] == p;
    lemma_split_pieces_stand_in_text(text, k);
}

/// Every document yields at least one chunk.
pub proof fn lemma_document_has_chunks(doc: Document)
    ensures
        document_chunks(doc).len() >= 1,
{
}

/// Every chunk of a document is filed under the document's identifier.
pub proof fn lemma_chunks_carry_document_id(doc: Document, i: int)
    requires
        0 <= i < document_chunks(doc).len(),
    ensures
        document_chunks(doc)[i].doc_id == document_id_bytes(doc.id),
{
}

/// A document becomes either the one chunk that stands for all of it, or
/// chunks none of which is blank.
pub proof fn lemma_chunks_not_blank(doc: Document)
    ensures
        document_chunks(doc) == seq![whole_document_chunk(document_id_bytes(doc.id), doc.text@)]
            || forall|i: int|
            0 <= i < document_chunks(doc).len() ==> !is_blank(#[trigger] document_chunks(doc)[i].text),
{
    let doc_id = document_id_bytes(doc.id);
    let text = doc.text@;
    let ext = doc.meta.extension@;
    let ps = paragraphs(text);
    assert forall|i: int| 0 <= i < ps.len() implies !is_blank(#[trigger] ps[i]) by {
        split_blank_lines(text).lemma_filter_pred(|p: Seq<char>| !is_blank(p), i);
    }
    if let Some(language) = language_of_extension(ext) {
        if let Some(captures) = syntax_captures(language, text, query_or_empty(ext)) {
            let bytes = encode_utf8(text);
            let keep = |c: SyntaxCaptureView| capture_yields_chunk(bytes, c);
            let kept = captures.filter(keep);
            assert forall|i: int| 0 <= i < kept.len() implies !is_blank(
                trim(capture_text(bytes, #[trigger] kept[i])),
            ) by {
                captures.lemma_filter_pred(keep, i);
                lemma_trim_not_blank(capture_text(bytes, kept[i]));
            }
        }
    }
}

/// A collection yields at least as many chunks as it has documents; in
/// particular it yields none only when it has no document.
pub proof fn lemma_collection_chunks_len(docs: Seq<Document>)
    ensures
        collection_chunks(docs).len() >= docs.len(),
    decreases docs.len(),
{
    if docs.len() > 0 {
        lemma_collection_chunks_len(docs.drop_last());
        lemma_document_has_chunks(docs.last());
    }
}

/// The chunks of a collection are the chunks of its documents, the chunks of
/// each document standing together and in order.
pub proof fn lemma_collection_chunks_append(docs: Seq<Document>, more: Seq<Document>)
    ensures
        collection_chunks(docs + more) == collection_chunks(docs) + collection_chunks(more),
    decreases more.len(),
{
    if more.len() == 0 {
        assert(docs + more =~= docs);
    } else {
        lemma_collection_chunks_append(docs, more.drop_last());
        assert((docs + more).drop_last() =~= docs + more.drop_last());
        assert((docs + more).last() == more.last());
    }
}

/// Exactly the extensions `rs`, `cpp`, `hpp`, `c`, `h`, `js`, `py` and `cu`
/// name a language with a grammar, and each names the one language shown
/// here; every other extension (`ts`, `html`, the empty one, ...) names none.
pub proof fn lemma_extensions_with_grammar(ext: Seq<char>)
    ensures
        language_of_extension(ext) is Some <==> (ext == "rs"@ || ext == "cpp"@ || ext == "hpp"@
            || ext == "c"@ || ext == "h"@ || ext == "js"@ || ext == "py"@ || ext == "cu"@),
        language_of_extension(ext) == Some(SourceLanguage::Rust) <==> ext == "rs"@,
        language_of_extension(ext) == Some(SourceLanguage::Cpp) <==> (ext == "cpp"@ || ext
            == "hpp"@),
        language_of_extension(ext) == Some(SourceLanguage::C) <==> (ext == "c"@ || ext == "h"@),
        language_of_extension(ext) == Some(SourceLanguage::JavaScript) <==> ext == "js"@,
        language_of_extension(ext) == Some(SourceLanguage::Python) <==> ext == "py"@,
        language_of_extension(ext) == Some(SourceLanguage::Cuda) <==> ext == "cu"@,
{
    reveal_strlit("rs");
    reveal_strlit("cpp");
    reveal_strlit("hpp");
    reveal_strlit("c");
    reveal_strlit("h");
    reveal_strlit("js");
    reveal_strlit("py");
    reveal_strlit("cu");
    if ext == "rs"@ {
        assert(ext.len() == 2 && ext[0] == 'r' && ext[1] == 's');
        assert(ext != "cpp"@ && ext != "hpp"@ && ext != "c"@ && ext != "h"@ && ext != "js"@ && ext != "py"@ && ext != "cu"@);
    }
    if ext == "cpp"@ {
        assert(ext.len() == 3 && ext[0] == 'c' && ext[1] == 'p' && ext[2] == 'p');
        assert(ext != "rs"@ && ext != "hpp"@ && ext != "c"@ && ext != "h"@ && ext != "js"@ && ext != "py"@ && ext != "cu"@);
    }
    if ext == "hpp"@ {
        assert(ext.len() == 3 && ext[0] == 'h' && ext[1] == 'p' && ext[2] == 'p');
        assert(ext != "rs"@ && ext != "cpp"@ && ext != "c"@ && ext != "h"@ && ext != "js"@ && ext != "py"@ && ext != "cu"@);
    }
    if ext == "c"@ {
        assert(ext.len() == 1 && ext[0] == 'c');
        assert(ext != "rs"@ && ext != "cpp"@ && ext != "hpp"@ && ext != "h"@ && ext != "js"@ && ext != "py"@ && ext != "cu"@);
    }
    if ext == "h"@ {
        assert(ext.len() == 1 && ext[0] == 'h');
        assert(ext != "rs"@ && ext != "cpp"@ && ext != "hpp"@ && ext != "c"@ && ext != "js"@ && ext != "py"@ && ext != "cu"@);
    }
    if ext == "js"@ {
        assert(ext.len() == 2 && ext[0] == 'j' && ext[1] == 's');
        assert(ext != "rs"@ && ext != "cpp"@ && ext != "hpp"@ && ext != "c"@ && ext != "h"@ && ext != "py"@ && ext != "cu"@);
    }
    if ext == "py"@ {
        assert(ext.len() == 2 && ext[0] == 'p' && ext[1] == 'y');
        assert(ext != "rs"@ && ext != "cpp"@ && ext != "hpp"@ && ext != "c"@ && ext != "h"@ && ext != "js"@ && ext != "cu"@);
    }
    if ext == "cu"@ {
        assert(ext.len() == 2 && ext[0] == 'c' && ext[1] == 'u');
        assert(ext != "rs"@ && ext != "cpp"@ && ext != "hpp"@ && ext != "c"@ && ext != "h"@ && ext != "js"@ && ext != "py"@);
    }
}

/// A document whose extension is none of `rs`, `cpp`, `hpp`, `c`, `h`, `js`,
/// `py` and `cu` is chunked by paragraph.
pub proof fn lemma_other_extensions_chunked_by_paragraph(doc: Document)
    requires
        !(doc.meta.extension@ == "rs"@ || doc.meta.extension@ == "cpp"@ || doc.meta.extension@
            == "hpp"@ || doc.meta.extension@ == "c"@ || doc.meta.extension@ == "h"@
            || doc.meta.extension@ == "js"@ || doc.meta.extension@ == "py"@ || doc.meta.extension@
            == "cu"@),
    ensures
        document_chunks(doc) == naive_chunks(document_id_bytes(doc.id), doc.text@),
{
    lemma_extensions_with_grammar(doc.meta.extension@);
}

/// A chunk's identifier is the SHA-256 digest of the document identifier
/// followed by every byte of the chunk: the data hashed is as long as both
/// together, and chunks of one document whose bytes differ anywhere are hashed
/// from different data.
pub proof fn lemma_chunk_id_hashes_every_byte(doc_id: Seq<u8>, raw: Seq<u8>, other: Seq<u8>)
    ensures
        chunk_id_of(doc_id, raw) == sha256(doc_id + raw),
        (doc_id + raw).len() == doc_id.len() + raw.len(),
        (doc_id + raw).subrange(doc_id.len() as int, (doc_id.len() + raw.len()) as int) == raw,
        raw != other ==> doc_id + raw != doc_id + other,
{
    let n = doc_id.len() as int;
    assert((doc_id + raw).subrange(n, n + raw.len()) =~= raw);
    assert((doc_id + other).subrange(n, n + other.len()) =~= other);
}

/// Chunking by paragraph gives one `"paragraph"` chunk per piece between
/// `"\n\n"` separators that is not all whitespace, in order, each holding the
/// piece as it is; a text without such a piece gives the one `"document"`
/// chunk holding the trimmed text.
pub proof fn lemma_paragraph_chunks(doc_id: Seq<u8>, text: Seq<char>)
    ensures
        ({
            let kept = split_blank_lines(text).filter(|p: Seq<char>| !is_blank(p));
            let chunks = naive_chunks(doc_id, text);
            &&& kept.len() > 0 ==> chunks.len() == kept.len()
            &&& kept.len() > 0 ==> forall|k: int|
                0 <= k < kept.len() ==> {
                    &&& (#[trigger] chunks[k]).text == kept[k]
                    &&& chunks[k].chunk_type == "paragraph"@
                    &&& chunks[k].doc_id == doc_id
                    &&& chunks[k].id == sha256(doc_id + encode_utf8(kept[k]))
                    &&& chunks[k].char_count == encode_utf8(kept[k]).len()
                }
            &&& kept.len() == 0 ==> chunks.len() == 1 && chunks[0].text == trim(text)
                && chunks[0].chunk_type == "document"@ && chunks[0].doc_id == doc_id
                && chunks[0].id == sha256(doc_id + encode_utf8(text))
        }),
{
    let kept = split_blank_lines(text).filter(|p: Seq<char>| !is_blank(p));
    assert(kept == paragraphs(text));
}

/// Every capture of a node directly under the root that covers whole
/// characters and is not all whitespace yields a chunk, whatever its length:
/// the captured text trimmed, filed under the node's kind, its identifier the
/// digest of the document identifier and every captured byte.
pub proof fn lemma_every_top_level_capture_yields_chunk(
    doc_id: Seq<u8>,
    text: Seq<char>,
    captures: Seq<SyntaxCaptureView>,
    i: int,
)
    requires
        0 <= i < captures.len(),
        captures[i].parent_kind == Some("source_file"@) || captures[i].parent_kind == Some(
            "module"@,
        ),
        captures[i].start <= captures[i].end <= encode_utf8(text).len(),
        is_char_boundary(encode_utf8(text), captures[i].start as int),
        is_char_boundary(encode_utf8(text), captures[i].end as int),
        !is_blank(
            decode_utf8(
                encode_utf8(text).subrange(captures[i].start as int, captures[i].end as int),
            ),
        ),
    ensures
        syntax_chunks(doc_id, text, captures).contains(
            (ChunkView {
                id: sha256(
                    doc_id + encode_utf8(text).subrange(
                        captures[i].start as int,
                        captures[i].end as int,
                    ),
                ),
                doc_id,
                text: trim(
                    decode_utf8(
                        encode_utf8(text).subrange(
                            captures[i].start as int,
                            captures[i].end as int,
                        ),
                    ),
                ),
                chunk_type: captures[i].kind,
                char_count: (captures[i].end - captures[i].start) as nat,
            }),
        ),
{
    let bytes = encode_utf8(text);
    let keep = |c: SyntaxCaptureView| capture_yields_chunk(bytes, c);
    let to_chunk = |c: SyntaxCaptureView| capture_chunk(doc_id, bytes, c);
    let kept = captures.filter(keep);
    assert(keep(captures[i]));
    captures.lemma_filter_contains(keep, i);
    let k = choose|k: int| 0 <= k < kept.len() && kept[k] == captures[i];
    let found = kept.map_values(to_chunk);
    assert(found[k] == to_chunk(captures[i]));
    assert(found.len() > 0);
    assert(syntax_chunks(doc_id, text, captures) == found);
    assert(found.contains(found[k]));
}

/// Chunking by syntax gives as many chunks as there are captures of nodes
/// directly under the root that cover whole characters and are not all
/// whitespace, where there is one; otherwise the one `"document"` chunk.
pub proof fn lemma_syntax_chunk_count(doc_id: Seq<u8>, text: Seq<char>, captures: Seq<SyntaxCaptureView>)
    ensures
        ({
            let bytes = encode_utf8(text);
            let n = captures.filter(
                |c: SyntaxCaptureView|
                    {
                        &&& (c.parent_kind == Some("source_file"@) || c.parent_kind == Some(
                            "module"@,
                        ))
                        &&& c.start <= c.end <= bytes.len()
                        &&& is_char_boundary(bytes, c.start as int)
                        &&& is_char_boundary(bytes, c.end as int)
                        &&& !is_blank(decode_utf8(bytes.subrange(c.start as int, c.end as int)))
                    },
            ).len();
            &&& n > 0 ==> syntax_chunks(doc_id, text, captures).len() == n
            &&& n == 0 ==> syntax_chunks(doc_id, text, captures) == seq![
                whole_document_chunk(doc_id, text),
            ]
        }),
{
    let bytes = encode_utf8(text);
    let keep = |c: SyntaxCaptureView| capture_yields_chunk(bytes, c);
    let q = |c: SyntaxCaptureView|
        {
            &&& (c.parent_kind == Some("source_file"@) || c.parent_kind == Some("module"@))
            &&& c.start <= c.end <= bytes.len()
            &&& is_char_boundary(bytes, c.start as int)
            &&& is_char_boundary(bytes, c.end as int)
            &&& !is_blank(decode_utf8(bytes.subrange(c.start as int, c.end as int)))
        };
    assert(keep =~= q);
}

/// Exactly the extensions `rs`, `py`, `js`, `c`, `cpp`, `cu` and `html` have a
/// query, each the one shown here (`cpp` and `cu` share the C++ query); every
/// other extension (`h`, `hpp`, `ts`, ...) has none.
pub proof fn lemma_extensions_with_query(ext: Seq<char>)
    ensures
        query_for_extension(ext) is Some <==> (ext == "rs"@ || ext == "py"@ || ext == "js"@
            || ext == "c"@ || ext == "cpp"@ || ext == "cu"@ || ext == "html"@),
        ext == "rs"@ ==> query_for_extension(ext) == Some(RUST_QUERY@),
        ext == "py"@ ==> query_for_extension(ext) == Some(PYTHON_QUERY@),
        ext == "js"@ ==> query_for_extension(ext) == Some(JAVASCRIPT_QUERY@),
        ext == "c"@ ==> query_for_extension(ext) == Some(C_QUERY@),
        ext == "cpp"@ ==> query_for_extension(ext) == Some(CPP_QUERY@),
        ext == "cu"@ ==> query_for_extension(ext) == Some(CPP_QUERY@),
        ext == "html"@ ==> query_for_extension(ext) == Some(HTML_QUERY@),
{
    reveal_strlit("rs");
    reveal_strlit("py");
    reveal_strlit("js");
    reveal_strlit("c");
    reveal_strlit("cpp");
    reveal_strlit("cu");
    reveal_strlit("html");
    if ext == "rs"@ {
        assert(ext.len() == 2 && ext[0] == 'r' && ext[1] == 's');
        assert(ext != "py"@ && ext != "js"@ && ext != "c"@ && ext != "cpp"@ && ext != "cu"@ && ext != "html"@);
    }
    if ext == "py"@ {
        assert(ext.len() == 2 && ext[0] == 'p' && ext[1] == 'y');
        assert(ext != "rs"@ && ext != "js"@ && ext != "c"@ && ext != "cpp"@ && ext != "cu"@ && ext != "html"@);
    }
    if ext == "js"@ {
        assert(ext.len() == 2 && ext[0] == 'j' && ext[1] == 's');
        assert(ext != "rs"@ && ext != "py"@ && ext != "c"@ && ext != "cpp"@ && ext != "cu"@ && ext != "html"@);
    }
    if ext == "c"@ {
        assert(ext.len() == 1 && ext[0] == 'c');
        assert(ext != "rs"@ && ext != "py"@ && ext != "js"@ && ext != "cpp"@ && ext != "cu"@ && ext != "html"@);
    }
    if ext == "cpp"@ {
        assert(ext.len() == 3 && ext[0] == 'c' && ext[1] == 'p' && ext[2] == 'p');
        assert(ext != "rs"@ && ext != "py"@ && ext != "js"@ && ext != "c"@ && ext != "cu"@ && ext != "html"@);
    }
    if ext == "cu"@ {
        assert(ext.len() == 2 && ext[0] == 'c' && ext[1] == 'u');
        assert(ext != "rs"@ && ext != "py"@ && ext != "js"@ && ext != "c"@ && ext != "cpp"@ && ext != "html"@);
    }
    if ext == "html"@ {
        assert(ext.len() == 4 && ext[0] == 'h' && ext[1] == 't' && ext[2] == 'm' && ext[3] == 'l');
        assert(ext != "rs"@ && ext != "py"@ && ext != "js"@ && ext != "c"@ && ext != "cpp"@ && ext != "cu"@);
    }
}

} // verus!
