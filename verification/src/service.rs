//! The decisions and replies of the retrieval service: what an index request
//! answers, how a search result describes its chunk, and the chunk that
//! stands for a query.

use crate::chunking::{Chunk, ChunkView};
use crate::document::DocumentID;
use crate::text::is_blank;
use vstd::prelude::*;
use vstd::string::StringExecFns;
use vstd::utf8::encode_utf8;

verus! {

/// The number of results a search returns.
pub const SEARCH_RESULT_COUNT: usize = 5;

/// The size of the candidate list the index explores while searching.
pub const SEARCH_EF: usize = 50;

/// Reply to an index request over a path where no document was found.
pub const NO_DOCUMENTS_MESSAGE: &'static str = "No documents found at the specified path";

/// Reply to an index request whose documents gave no chunk.
pub const NO_CHUNKS_MESSAGE: &'static str = "No chunks produced from documents";

/// Reply to a search made before any index was built.
pub const NO_INDEX_MESSAGE: &'static str = "No index available. Please index documents first.";

/// Reply to a search whose query could not be embedded.
pub const QUERY_EMBEDDING_FAILED_MESSAGE: &'static str = "Failed to generate query embedding";

/// The lowercase hexadecimal digit for `d` (0 to 15).
pub open spec fn hex_char(d: int) -> char {
    if d < 10 {
        (48 + d) as char
    } else {
        (87 + d) as char
    }
}

/// Lowercase hexadecimal, two digits per byte, high digit first.
pub open spec fn hex_of(bytes: Seq<u8>) -> Seq<char>
    decreases bytes.len(),
{
    if bytes.len() == 0 {
        Seq::<char>::empty()
    } else {
        hex_of(bytes.drop_last()) + seq![
            hex_char(bytes.last() as int / 16),
            hex_char(bytes.last() as int % 16),
        ]
    }
}

fn hex_digit(d: u8) -> (digit: &'static str)
    requires
        d < 16,
    ensures
        digit@ == seq![hex_char(d as int)],
{
    proof {
        reveal_strlit("0");
        reveal_strlit("1");
        reveal_strlit("2");
        reveal_strlit("3");
        reveal_strlit("4");
        reveal_strlit("5");
        reveal_strlit("6");
        reveal_strlit("7");
        reveal_strlit("8");
        reveal_strlit("9");
        reveal_strlit("a");
        reveal_strlit("b");
        reveal_strlit("c");
        reveal_strlit("d");
        reveal_strlit("e");
        reveal_strlit("f");
    }
    let digit = if d == 0 {
        "0"
    } else if d == 1 {
        "1"
    } else if d == 2 {
        "2"
    } else if d == 3 {
        "3"
    } else if d == 4 {
        "4"
    } else if d == 5 {
        "5"
    } else if d == 6 {
        "6"
    } else if d == 7 {
        "7"
    } else if d == 8 {
        "8"
    } else if d == 9 {
        "9"
    } else if d == 10 {
        "a"
    } else if d == 11 {
        "b"
    } else if d == 12 {
        "c"
    } else if d == 13 {
        "d"
    } else if d == 14 {
        "e"
    } else {
        "f"
    };
    assert(digit@ =~= seq![hex_char(d as int)]);
    digit
}

/// The first eight bytes of a document identifier in lowercase hexadecimal,
/// as a search result shows it.
pub fn doc_id_hex_prefix(doc_id: &DocumentID) -> (hex: String)
    ensures
        hex@ == hex_of(doc_id@.take(8)),
{
    let mut hex = String::new();
    for i in 0..8usize
        invariant
            hex@ == hex_of(doc_id@.take(i as int)),
    {
        let b = doc_id[i];
        hex.append(hex_digit(b / 16));
        hex.append(hex_digit(b % 16));
        proof {
            let t = doc_id@.take(i + 1);
            assert(t.drop_last() =~= doc_id@.take(i as int));
            assert(t.last() == b);
        }
    }
    hex
}

/// How a search result describes its chunk, below the line with the score:
/// the document, the kind of chunk, a rule, then the chunk's text.
pub open spec fn chunk_description(chunk: ChunkView) -> Seq<char> {
    "File: "@ + hex_of(chunk.doc_id.take(8)) + "\nType: "@ + chunk.chunk_type + "\n---\n"@
        + chunk.text + "\n"@
}

/// No search result is blank: its description starts with `File: `.
pub proof fn lemma_description_not_blank(chunk: ChunkView)
    ensures
        !is_blank(chunk_description(chunk)),
{
    reveal_strlit("File: ");
    assert(chunk_description(chunk)[0] == 'F');
}

/// The description of `chunk` in a search result (see `chunk_description`).
pub fn describe_chunk(chunk: &Chunk) -> (description: String)
    ensures
        description@ == chunk_description(chunk@),
{
    let mut description = String::new();
    description.append("File: ");
    let hex = doc_id_hex_prefix(&chunk.doc_id);
    description.append(hex.as_str());
    description.append("\nType: ");
    description.append(chunk.chunk_type);
    description.append("\n---\n");
    description.append(chunk.text.as_str());
    description.append("\n");
    assert(description@ =~= chunk_description(chunk@));
    description
}

/// The chunk that stands for a search query: all-zero identifiers, type
/// `"query"`, and the query's length in bytes.
pub fn query_chunk(text: &str) -> (chunk: Chunk)
    ensures
        chunk.id@ == Seq::new(32, |i: int| 0u8),
        chunk.doc_id@ == Seq::new(32, |i: int| 0u8),
        chunk.text@ == text@,
        chunk.chunk_type@ == "query"@,
        chunk.char_count == encode_utf8(text@).len(),
{
    let zeros: [u8; 32] = [
        0, 0, 0, 0, 0, 0, 0, 0, 0, 0, 0, 0, 0, 0, 0, 0, 0, 0, 0, 0, 0, 0, 0, 0, 0, 0, 0, 0, 0, 0, 0, 0,
    ];
    assert(zeros@ =~= Seq::new(32, |i: int| 0u8));
    Chunk {
        id: zeros,
        doc_id: zeros,
        text: text.to_owned(),
        chunk_type: "query",
        char_count: text.as_bytes().len(),
    }
}

/// The reply to an index request over `document_count` documents that gave
/// `chunk_count` chunks: success, or the message that says what was missing.
pub fn index_reply(document_count: usize, chunk_count: usize) -> (reply: (bool, &'static str))
    ensures
        reply.0 == (document_count > 0 && chunk_count > 0),
        document_count == 0 ==> reply.1@ == NO_DOCUMENTS_MESSAGE@,
        document_count > 0 && chunk_count == 0 ==> reply.1@ == NO_CHUNKS_MESSAGE@,
        reply.0 ==> reply.1@ == ""@,
{
    if document_count == 0 {
        (false, NO_DOCUMENTS_MESSAGE)
    } else if chunk_count == 0 {
        (false, NO_CHUNKS_MESSAGE)
    } else {
        (true, "")
    }
}

/// The hexadecimal digits are the standard lowercase ones: the digit for `d`
/// is the `d`-th character of `0123456789abcdef`, so no two of the sixteen
/// values share a digit.
pub proof fn lemma_hex_digits(d: int, e: int)
    requires
        0 <= d < 16,
        0 <= e < 16,
    ensures
        hex_char(d) == "0123456789abcdef"@[d],
        d != e ==> hex_char(d) != hex_char(e),
{
    reveal_strlit("0123456789abcdef");
    assert(hex_char(d) == "0123456789abcdef"@[d]) by {
        if d == 0 { assert(hex_char(d) == '0'); }
        else if d == 1 { assert(hex_char(d) == '1'); }
        else if d == 2 { assert(hex_char(d) == '2'); }
        else if d == 3 { assert(hex_char(d) == '3'); }
        else if d == 4 { assert(hex_char(d) == '4'); }
        else if d == 5 { assert(hex_char(d) == '5'); }
        else if d == 6 { assert(hex_char(d) == '6'); }
        else if d == 7 { assert(hex_char(d) == '7'); }
        else if d == 8 { assert(hex_char(d) == '8'); }
        else if d == 9 { assert(hex_char(d) == '9'); }
        else if d == 10 { assert(hex_char(d) == 'a'); }
        else if d == 11 { assert(hex_char(d) == 'b'); }
        else if d == 12 { assert(hex_char(d) == 'c'); }
        else if d == 13 { assert(hex_char(d) == 'd'); }
        else if d == 14 { assert(hex_char(d) == 'e'); }
        else { assert(hex_char(d) == 'f'); }
    }
    assert(d != e ==> hex_char(d) != hex_char(e)) by {
        if d != e {
            assert(hex_char(d) as int != hex_char(e) as int);
        }
    }
}

/// The hexadecimal of a byte string has two digits per byte, the high digit
/// of byte `i` at `2 i` and its low digit at `2 i + 1`, each the standard
/// lowercase digit of `0123456789abcdef`.
pub proof fn lemma_hex_of_digits(bytes: Seq<u8>)
    ensures
        hex_of(bytes).len() == 2 * bytes.len(),
        forall|i: int|
            #![trigger bytes[i]]
            0 <= i < bytes.len() ==> {
                &&& hex_of(bytes)[2 * i] == "0123456789abcdef"@[bytes[i] as int / 16]
                &&& hex_of(bytes)[2 * i + 1] == "0123456789abcdef"@[bytes[i] as int % 16]
            },
    decreases bytes.len(),
{
    if bytes.len() > 0 {
        let rest = bytes.drop_last();
        lemma_hex_of_digits(rest);
        let last = bytes.last();
        lemma_hex_digits(last as int / 16, 0);
        lemma_hex_digits(last as int % 16, 0);
        assert forall|i: int| #![trigger bytes[i]] 0 <= i < bytes.len() implies {
            &&& hex_of(bytes)[2 * i] == "0123456789abcdef"@[bytes[i] as int / 16]
            &&& hex_of(bytes)[2 * i + 1] == "0123456789abcdef"@[bytes[i] as int % 16]
        } by {
            if i < rest.len() {
                assert(rest[i] == bytes[i]);
                assert(hex_of(rest)[2 * i] == "0123456789abcdef"@[rest[i] as int / 16]);
            }
        }
    }
}

/// Byte strings of one length with different bytes have different
/// hexadecimal: two documents whose identifiers differ in their first eight
/// bytes are shown differently in search results.
pub proof fn lemma_hex_of_distinguishes(a: Seq<u8>, b: Seq<u8>)
    requires
        a.len() == b.len(),
        a != b,
    ensures
        hex_of(a) != hex_of(b),
{
    lemma_hex_of_digits(a);
    lemma_hex_of_digits(b);
    assert(!(a =~= b));
    assert(exists|i: int| 0 <= i < a.len() && a[i] != b[i]);
    let i = choose|i: int| 0 <= i < a.len() && a[i] != b[i];
    lemma_hex_digits(a[i] as int / 16, b[i] as int / 16);
    lemma_hex_digits(a[i] as int % 16, b[i] as int % 16);
    lemma_hex_digits(b[i] as int / 16, a[i] as int / 16);
    lemma_hex_digits(b[i] as int % 16, a[i] as int % 16);
    assert(a[i] as int == 16 * (a[i] as int / 16) + a[i] as int % 16);
    assert(b[i] as int == 16 * (b[i] as int / 16) + b[i] as int % 16);
    if hex_of(a) == hex_of(b) {
        assert(hex_of(a)[2 * i] == hex_of(b)[2 * i]);
        assert(hex_of(a)[2 * i + 1] == hex_of(b)[2 * i + 1]);
        assert(hex_of(a)[2 * i] == "0123456789abcdef"@[a[i] as int / 16]);
        assert(hex_of(b)[2 * i] == "0123456789abcdef"@[b[i] as int / 16]);
        assert(a[i] as int / 16 == b[i] as int / 16);
        assert(a[i] as int % 16 == b[i] as int % 16);
    }
}

/// Search results tell documents apart: two chunks whose document identifiers
/// differ in their first eight bytes are described differently, whatever
/// their kinds and texts.
pub proof fn lemma_descriptions_tell_documents_apart(a: ChunkView, b: ChunkView)
    requires
        a.doc_id.len() >= 8,
        b.doc_id.len() >= 8,
        a.doc_id.take(8) != b.doc_id.take(8),
    ensures
        chunk_description(a) != chunk_description(b),
{
    reveal_strlit("File: ");
    let ha = hex_of(a.doc_id.take(8));
    let hb = hex_of(b.doc_id.take(8));
    lemma_hex_of_digits(a.doc_id.take(8));
    lemma_hex_of_digits(b.doc_id.take(8));
    lemma_hex_of_distinguishes(a.doc_id.take(8), b.doc_id.take(8));
    let da = chunk_description(a);
    let db = chunk_description(b);
    assert(da.subrange(6, 22) =~= ha);
    assert(db.subrange(6, 22) =~= hb);
}

} // verus!
