//! Syntax trees: the languages with a grammar, the queries that pick out
//! top-level items, and the captures that tree-sitter finds with them.

use tree_sitter::StreamingIterator;
use vstd::prelude::*;

verus! {

/// A language for which a tree-sitter grammar is at hand.
#[derive(Debug, Clone, Copy, PartialEq, Eq, Structural)]
pub enum SourceLanguage {
    Rust,
    Cpp,
    C,
    JavaScript,
    Python,
    Cuda,
}

/// One node captured by a query: its byte range in the source, its kind, and
/// the kind of its parent (none for the root).
#[derive(Debug, Clone, Copy)]
pub struct SyntaxCapture {
    pub start: usize,
    pub end: usize,
    pub kind: &'static str,
    pub parent_kind: Option<&'static str>,
}

/// A captured node as a mathematical value.
pub struct SyntaxCaptureView {
    pub start: nat,
    pub end: nat,
    pub kind: Seq<char>,
    pub parent_kind: Option<Seq<char>>,
}

impl View for SyntaxCapture {
    type V = SyntaxCaptureView;

    open spec fn view(&self) -> SyntaxCaptureView {
        SyntaxCaptureView {
            start: self.start as nat,
            end: self.end as nat,
            kind: self.kind@,
            parent_kind: match self.parent_kind {
                Some(k) => Some(k@),
                None => None,
            },
        }
    }
}

/// The views of a sequence of captures.
pub open spec fn captures_view(captures: Seq<SyntaxCapture>) -> Seq<SyntaxCaptureView> {
    captures.map_values(|c: SyntaxCapture| c@)
}

/// What tree-sitter yields when `text` is parsed with the grammar of
/// `language` and `query` is run over the whole tree: every capture of every
/// match, in the order tree-sitter reports them; `None` when the grammar
/// cannot be loaded, the text cannot be parsed, or the query does not compile
/// for the grammar.
pub uninterp spec fn syntax_captures(language: SourceLanguage, text: Seq<char>, query: Seq<char>) -> Option<Seq<SyntaxCaptureView>>;

#[verifier::external_type_specification]
#[verifier::external_body]
pub struct ExLanguage(tree_sitter::Language);

/// The tree-sitter grammar of a language.
pub struct Grammar {
    language: SourceLanguage,
    inner: tree_sitter::Language,
}

impl Grammar {
    /// The language whose grammar this is.
    pub closed spec fn language(&self) -> SourceLanguage {
        self.language
    }
}

/// Converts the `LANGUAGE` constant of the grammar crate of `language`
/// (`tree_sitter_rust`, `tree_sitter_cpp`, `tree_sitter_c`,
/// `tree_sitter_javascript`, `tree_sitter_python`, `tree_sitter_cuda`) into a
/// `tree_sitter::Language`. Trusted: the grammar held is the one of `language`.
#[verifier::external_body]
pub(crate) fn grammar(language: SourceLanguage) -> (g: Grammar)
    ensures
        g.language() == language,
{
    let inner = match language {
        SourceLanguage::Rust => tree_sitter_rust::LANGUAGE,
        SourceLanguage::Cpp => tree_sitter_cpp::LANGUAGE,
        SourceLanguage::C => tree_sitter_c::LANGUAGE,
        SourceLanguage::JavaScript => tree_sitter_javascript::LANGUAGE,
        SourceLanguage::Python => tree_sitter_python::LANGUAGE,
        SourceLanguage::Cuda => tree_sitter_cuda::LANGUAGE,
    };
    Grammar { language, inner: inner.into() }
}

/// Parses `text` with `tree_sitter::Parser` (`set_language`, `parse`),
/// compiles `query_source` with `tree_sitter::Query::new`, runs it with
/// `tree_sitter::QueryCursor::matches` over the root node, and reports each
/// capture's node (`start_byte`, `end_byte`, `kind`, `parent`). Trusted: the
/// result is what `syntax_captures` names for the grammar's language, the text
/// and the query; nothing is claimed of the captures themselves.
#[verifier::external_body]
pub(crate) fn query_syntax_captures(grammar: &Grammar, text: &str, query_source: &str) -> (captures:
    Option<Vec<SyntaxCapture>>)
    ensures
        captures matches Some(v) ==> syntax_captures(grammar.language(), text@, query_source@)
            == Some(captures_view(v@)),
        captures is None ==> syntax_captures(grammar.language(), text@, query_source@) is None,
{
    let mut parser = tree_sitter::Parser::new();
    parser.set_language(&grammar.inner).ok()?;
    let tree = parser.parse(text, None)?;
    let query = tree_sitter::Query::new(&grammar.inner, query_source).ok()?;
    let mut cursor = tree_sitter::QueryCursor::new();
    let mut matches = cursor.matches(&query, tree.root_node(), text.as_bytes());
    let mut found = Vec::new();
    while let Some(m) = matches.next() {
        for c in m.captures {
            let node = c.node;
            let parent_kind = node.parent().map(|p| p.kind());
            found.push(SyntaxCapture { start: node.start_byte(), end: node.end_byte(), kind: node.kind(), parent_kind });
        }
    }
    Some(found)
}

/// Tree-sitter query for Rust: functions, structs, impls, modules, enums and traits.
pub const RUST_QUERY: &'static str = "\n            ;; Rust top-level items\n            (function_item) @chunk\n            (struct_item) @chunk\n            (impl_item) @chunk\n            (mod_item) @chunk\n            (enum_item) @chunk\n            (trait_item) @chunk\n            ";

/// Tree-sitter query for Python: function and class definitions.
pub const PYTHON_QUERY: &'static str = "\n            ;; Python top-level definitions\n            (function_definition) @chunk\n            (class_definition) @chunk\n            ";

/// Tree-sitter query for JavaScript: functions, arrow functions, classes, methods and variable declarations.
pub const JAVASCRIPT_QUERY: &'static str = "\n            ;; JavaScript / TypeScript top-level definitions\n            (function_declaration) @chunk\n            (arrow_function) @chunk\n            (class_declaration) @chunk\n            (method_definition) @chunk\n            (variable_declaration) @chunk\n            ";

/// Tree-sitter query for C: functions, structs, unions, enums and declarations with a type specifier.
pub const C_QUERY: &'static str = "\n            ;; C top-level items\n            (function_definition) @chunk\n            (struct_specifier) @chunk\n            (union_specifier) @chunk\n            (enum_specifier) @chunk\n            (declaration\n                (type_specifier) @type_decl\n            ) @chunk\n            ";

/// Tree-sitter query for C++ and CUDA: functions, classes, structs, enums, templates and declarations with a type specifier.
pub const CPP_QUERY: &'static str = "\n            ;; C++ / CUDA top-level items\n            (function_definition) @chunk\n            (class_specifier) @chunk\n            (struct_specifier) @chunk\n            (enum_specifier) @chunk\n            (template_declaration) @chunk\n            (declaration\n                (type_specifier) @type_decl\n            ) @chunk\n            ";

/// Tree-sitter query for HTML: elements.
pub const HTML_QUERY: &'static str = "\n            ;; HTML fallback: treat top-level elements as chunks\n            (element) @chunk\n            ";
} // verus!
