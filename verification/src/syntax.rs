//! The syntax tree of a piece of BPF C and the pattern queries that run
//! over it, as tree-sitter provides them.
//!
//! Nothing in this module is proved: it states what the rest of the
//! crate relies on of tree-sitter. Parsing depends on nothing but the
//! bytes handed in, and running a query on nothing but the bytes and
//! the pattern that the query was compiled from, so their results are
//! given names here, and the trees, nodes and queries that tree-sitter
//! hands out are described by what they hold. Whether a pattern
//! compiles is given a name for patterns made of ASCII characters;
//! tree-sitter's compiler tells letters and blanks among other
//! characters by the locale of the process that it runs in.

use vstd::prelude::*;
use vstd::utf8::is_ascii_chars;

use crate::Point;
use crate::Range;

verus! {

/// A syntax tree, as `Parser::parse` makes it.
#[verifier::external_type_specification]
#[verifier::external_body]
pub struct ExTree(tree_sitter::Tree);

/// A node of a syntax tree.
#[verifier::external_type_specification]
#[verifier::external_body]
pub struct ExNode<'tree>(tree_sitter::Node<'tree>);

/// A compiled pattern query.
#[verifier::external_type_specification]
#[verifier::external_body]
pub struct ExQuery(tree_sitter::Query);

/// The error of `Query::new`.
#[verifier::external_type_specification]
#[verifier::external_body]
pub struct ExQueryError(tree_sitter::QueryError);

/// The error of `Parser::set_language`.
#[verifier::external_type_specification]
#[verifier::external_body]
pub struct ExLanguageError(tree_sitter::LanguageError);

/// What is read of a node that stands right before another one.
pub struct SiblingView {
    /// The node's kind, such as `comment`.
    pub kind: Seq<char>,
    /// The byte offset at which the node starts.
    pub start_byte: nat,
    /// The byte offset at which the node ends.
    pub end_byte: nat,
}

/// A node that stands right before another one.
pub struct Sibling {
    /// The node's kind, such as `comment`.
    pub kind: &'static str,
    /// The byte offset at which the node starts.
    pub start_byte: usize,
    /// The byte offset at which the node ends.
    pub end_byte: usize,
}

impl View for Sibling {
    type V = SiblingView;

    open spec fn view(&self) -> SiblingView {
        SiblingView {
            kind: self.kind@,
            start_byte: self.start_byte as nat,
            end_byte: self.end_byte as nat,
        }
    }
}

/// What a node captured by a query amounts to.
pub struct CaptureView {
    /// The index of the pattern that captured the node.
    pub pattern: nat,
    /// The range of source code that the node stands for.
    pub range: Range,
    /// The node's lineage, see [`node_lineage`].
    pub lineage: Seq<Option<SiblingView>>,
}

/// A node captured by a query.
pub struct Capture<'tree> {
    /// The index of the pattern that captured the node.
    pub pattern: usize,
    /// The node itself.
    pub node: tree_sitter::Node<'tree>,
}

impl View for Capture<'_> {
    type V = CaptureView;

    open spec fn view(&self) -> CaptureView {
        CaptureView {
            pattern: self.pattern as nat,
            range: node_range(self.node),
            lineage: node_lineage(self.node),
        }
    }
}

/// A property that a pattern sets with `#set!`.
pub struct Setting {
    /// The property's key.
    pub key: String,
    /// The property's value, if one was given.
    pub value: Option<String>,
}

impl View for Setting {
    type V = (Seq<char>, Option<Seq<char>>);

    open spec fn view(&self) -> (Seq<char>, Option<Seq<char>>) {
        (
            self.key@,
            match self.value {
                Some(value) => Some(value@),
                None => None,
            },
        )
    }
}

/// How an attempt to parse ended.
pub enum ParseStatus {
    /// A tree was made.
    Parsed,
    /// The parser handed out no tree.
    NoTree,
    /// The parser did not accept the grammar.
    NoLanguage,
}

/// The bytes that a tree was parsed from.
pub uninterp spec fn tree_text(tree: tree_sitter::Tree) -> Seq<u8>;

/// The pattern source that a query was compiled from.
pub uninterp spec fn query_text(query: tree_sitter::Query) -> Seq<char>;

/// The range of source code that a node stands for.
pub uninterp spec fn node_range(node: tree_sitter::Node) -> Range;

/// For a node and then each of its ancestors in turn, up to the root:
/// the sibling that stands right before it, if there is one.
pub uninterp spec fn node_lineage(node: tree_sitter::Node) -> Seq<Option<SiblingView>>;

/// How parsing `code` as BPF C ends.
pub uninterp spec fn parse_status(code: Seq<u8>) -> ParseStatus;

/// Whether `source`, a text of ASCII characters, compiles to a query
/// over BPF C. Of texts with other characters the name says nothing
/// that anything here relies on: how tree-sitter's compiler takes
/// those depends on the process it runs in.
pub uninterp spec fn query_compiles(source: Seq<char>) -> bool;

/// The number of patterns in the query that `source` compiles to.
pub uninterp spec fn query_pattern_count(source: Seq<char>) -> nat;

/// The properties that the pattern at index `pattern` of the query
/// compiled from `source` sets, in the order in which it sets them.
pub uninterp spec fn query_settings(source: Seq<char>, pattern: nat) -> Seq<
    (Seq<char>, Option<Seq<char>>),
>;

/// The nodes that the query compiled from `source` captures in the tree
/// parsed from `code`: match by match in the order in which they are
/// found, and within a match capture by capture.
pub uninterp spec fn query_captures(code: Seq<u8>, source: Seq<char>) -> Seq<CaptureView>;

/// Whether the query compiled from `source`, run over the tree parsed
/// from `code`, went beyond the number of matches that may be in
/// progress at a time, so that some captures may be missing.
pub uninterp spec fn query_limit_exceeded(code: Seq<u8>, source: Seq<char>) -> bool;

/// The status that a parse result stands for.
pub open spec fn status_of(
    parsed: Result<Option<tree_sitter::Tree>, tree_sitter::LanguageError>,
) -> ParseStatus {
    match parsed {
        Ok(Some(_)) => ParseStatus::Parsed,
        Ok(None) => ParseStatus::NoTree,
        Err(_) => ParseStatus::NoLanguage,
    }
}

/// `Parser::parse` on a new parser that `Parser::set_language` has
/// given the BPF C grammar. The tree, if one comes back, holds `code`;
/// whether one comes back depends on `code` alone.
#[verifier::external_body]
pub(crate) fn parse_source(code: &[u8]) -> (parsed: Result<
    Option<tree_sitter::Tree>,
    tree_sitter::LanguageError,
>)
    ensures
        status_of(parsed) == parse_status(code@),
        parsed matches Ok(Some(tree)) ==> tree_text(tree) == code@,
{
    let mut parser = tree_sitter::Parser::new();
    parser.set_language(&tree_sitter_bpf_c::LANGUAGE.into())?;
    Ok(parser.parse(code, None))
}

/// `Query::new` for the BPF C grammar. The query, if one comes back,
/// holds `source`; whether one comes back depends on `source` alone
/// where that is made of ASCII characters.
#[verifier::external_body]
pub(crate) fn compile_query(source: &str) -> (compiled: Result<
    tree_sitter::Query,
    tree_sitter::QueryError,
>)
    ensures
        compiled matches Ok(query) ==> query_text(query) == source@,
        is_ascii_chars(source@) ==> (compiled is Ok) == query_compiles(source@),
{
    tree_sitter::Query::new(&tree_sitter_bpf_c::LANGUAGE.into(), source)
}

/// `Query::pattern_count`: the number of patterns in the query.
#[verifier::external_body]
pub(crate) fn pattern_count(query: &tree_sitter::Query) -> (count: usize)
    ensures
        count == query_pattern_count(query_text(*query)),
{
    query.pattern_count()
}

/// `Query::property_settings`: the properties that one pattern of the
/// query sets, each with its key and value. The pattern has to be one
/// of the query's, as tree-sitter indexes by it.
#[verifier::external_body]
pub(crate) fn pattern_settings(query: &tree_sitter::Query, pattern: usize) -> (settings: Vec<
    Setting,
>)
    requires
        pattern < query_pattern_count(query_text(*query)),
    ensures
        settings@.map_values(|s: Setting| s@) == query_settings(
            query_text(*query),
            pattern as nat,
        ),
{
    query.property_settings(pattern).iter().map(
        |p| Setting { key: p.key.to_string(), value: p.value.as_ref().map(|v| v.to_string()) },
    ).collect()
}

/// `QueryCursor::matches` on a new cursor, from the root of `tree`, and
/// `next` on what it returns until nothing is left: every capture of
/// every match, in order, each from one of the query's patterns. With
/// them comes what `QueryCursor::did_exceed_match_limit` says in the
/// end. tree-sitter reads the text of nodes from `code`, which
/// therefore has to be what the tree was parsed from.
#[verifier::external_body]
pub(crate) fn run_query<'tree>(
    query: &tree_sitter::Query,
    tree: &'tree tree_sitter::Tree,
    code: &[u8],
) -> (run: (Vec<Capture<'tree>>, bool))
    requires
        tree_text(*tree) == code@,
    ensures
        run.0@.map_values(|c: Capture| c@) == query_captures(code@, query_text(*query)),
        forall|i: int|
            0 <= i < run.0@.len() ==> (#[trigger] run.0@[i]).pattern < query_pattern_count(
                query_text(*query),
            ),
        run.1 == query_limit_exceeded(code@, query_text(*query)),
{
    let mut cursor = tree_sitter::QueryCursor::new();
    let mut captures = Vec::new();
    {
        let mut matches = cursor.matches(query, tree.root_node(), code);
        while let Some(m) = tree_sitter::StreamingIterator::next(&mut matches) {
            captures.extend(m.captures.iter().map(|c| Capture { pattern: m.pattern_index, node: c.node }));
        }
    }
    (captures, cursor.did_exceed_match_limit())
}

/// `Node::range`: the range of source code that the node stands for,
/// field by field.
#[verifier::external_body]
pub(crate) fn range_of(node: &tree_sitter::Node) -> (range: Range)
    ensures
        range == node_range(*node),
{
    let range = node.range();
    Range {
        bytes: range.start_byte..range.end_byte,
        start_point: Point { row: range.start_point.row, col: range.start_point.column },
        end_point: Point { row: range.end_point.row, col: range.end_point.column },
    }
}

/// `Node::prev_sibling`, and of the node found its `kind`, `start_byte`
/// and `end_byte`: the first entry of the node's lineage.
#[verifier::external_body]
pub(crate) fn preceding_sibling(node: &tree_sitter::Node) -> (sibling: Option<Sibling>)
    ensures
        match sibling {
            Some(s) => node_lineage(*node).len() >= 1 && node_lineage(*node)[0] == Some(s@),
            None => node_lineage(*node).len() >= 1 && node_lineage(*node)[0] is None,
        },
{
    node.prev_sibling().map(
        |s| Sibling { kind: s.kind(), start_byte: s.start_byte(), end_byte: s.end_byte() },
    )
}

/// `Node::parent`: the node's immediate parent, whose lineage is the
/// rest of the node's own; the root has none.
#[verifier::external_body]
pub(crate) fn parent_of<'tree>(node: &tree_sitter::Node<'tree>) -> (parent: Option<
    tree_sitter::Node<'tree>,
>)
    ensures
        match parent {
            Some(p) => node_lineage(*node).len() >= 1 && node_lineage(p) == node_lineage(
                *node,
            ).drop_first(),
            None => node_lineage(*node).len() == 1,
        },
{
    node.parent()
}

} // verus!
