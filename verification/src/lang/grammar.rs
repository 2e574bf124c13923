//! Syntax trees of the `tree_sitter` crate.
//!
//! A tree is opaque here: the library asks it for the nodes that a
//! query captures and reads kinds, rows, texts and children of nodes
//! through the accessors below. What an accessor returns only has a
//! name: all that is claimed is that the same grammar, text and node
//! give the same answer. A name stands for what a parser, tree, query
//! or node holds, not for where it lies in memory. What the library
//! makes of the answers is stated over those names.

use crate::extract::{parameter_views, Definition, DefinitionView, Parameter};
use crate::parser::text_option;
use crate::text::between_bytes;
use tree_sitter::{Language, Node, Parser, Query, QueryCursor, Tree};
use vstd::prelude::*;

verus! {

/// `tree_sitter::Language`, a grammar. Opaque to the library.
#[verifier::external_type_specification]
#[verifier::external_body]
pub struct ExLanguage(tree_sitter::Language);

/// `tree_sitter::Parser`. Opaque to the library.
#[verifier::external_type_specification]
#[verifier::external_body]
pub struct ExParser(tree_sitter::Parser);

/// `tree_sitter::Tree`, a syntax tree. Opaque to the library.
#[verifier::external_type_specification]
#[verifier::external_body]
pub struct ExTree(tree_sitter::Tree);

/// `tree_sitter::Node`, a node of a syntax tree. Opaque to the library.
#[verifier::external_type_specification]
#[verifier::external_body]
pub struct ExNode<'a>(tree_sitter::Node<'a>);

/// `tree_sitter::Query`, a compiled pattern. Opaque to the library.
#[verifier::external_type_specification]
#[verifier::external_body]
pub struct ExQuery(tree_sitter::Query);

/// The name for the parser that `Parser::set_language` leaves of a new
/// parser: `None` where it does not accept the grammar.
pub uninterp spec fn parser_of(language: Language) -> Option<Parser>;

/// The name for what `Parser::parse` makes of a whole text.
pub uninterp spec fn tree_from(parser: Parser, content: Seq<char>) -> Option<Tree>;

/// The name for what `Tree::root_node` returns.
pub uninterp spec fn root_of(tree: &Tree) -> Node<'_>;

/// The name for what `Query::new` makes of a pattern: `None` where the
/// grammar does not accept it.
pub uninterp spec fn query_for(language: Language, pattern: Seq<char>) -> Option<Query>;

/// The name for what `Query::capture_index_for_name` returns.
pub uninterp spec fn capture_of(query: Query, name: Seq<char>) -> Option<u32>;

/// The name for what `QueryCursor::matches` yields on a new cursor: for
/// each match, in order, its captures as pairs of capture index and
/// node.
pub uninterp spec fn matches_of(query: Query, node: Node<'_>, content: Seq<char>) -> Seq<
    Seq<(u32, Node<'_>)>,
>;

/// The name for what `Node::kind` returns.
pub uninterp spec fn node_kind_of(node: Node<'_>) -> Seq<char>;

/// The name for the row of `Node::start_position`.
pub uninterp spec fn node_first_row_of(node: Node<'_>) -> usize;

/// The name for the row of `Node::end_position`.
pub uninterp spec fn node_last_row_of(node: Node<'_>) -> usize;

/// The name for what `Node::byte_range` returns: the byte at which the
/// node starts and the byte behind its end.
pub uninterp spec fn node_span_of(node: Node<'_>) -> (usize, usize);

/// The text of a node: the characters of the text that start at the
/// bytes of the node.
pub open spec fn node_text_of(node: Node<'_>, content: Seq<char>) -> Seq<char> {
    between_bytes(content, node_span_of(node).0 as nat, node_span_of(node).1 as nat)
}

/// The name for what `Node::child_by_field_name` returns.
pub uninterp spec fn node_field_of(node: Node<'_>, name: Seq<char>) -> Option<Node<'_>>;

/// The name for what `Node::children` yields.
pub uninterp spec fn node_children_of(node: Node<'_>) -> Seq<Node<'_>>;

/// The name for what `Node::parent` returns.
pub uninterp spec fn node_parent_of(node: Node<'_>) -> Option<Node<'_>>;

/// Whether a pattern is one of those with which the library asks a
/// tree: each names node types, fields and captures that its grammar
/// has, and none holds a predicate.
pub open spec fn known_pattern(pattern: Seq<char>) -> bool {
    ||| pattern == "(function_item name: (identifier) @function_name) @function"@
    ||| pattern == "(struct_item name: (type_identifier) @struct_name) @struct"@
    ||| pattern == "(impl_item type: (type_identifier) @impl_type) @impl"@
    ||| pattern == "(function_declaration name: (identifier) @function_name) @function"@
    ||| pattern == "(class_declaration name: (identifier) @class_name) @class"@
}

/// Whether a query was made of one of the library's patterns.
pub open spec fn known_query(query: Query) -> bool {
    exists|language: Language, pattern: Seq<char>|
        known_pattern(pattern) && #[trigger] query_for(language, pattern) == Some(query)
}

/// `tree_sitter_rust::language`: the grammar of Rust. Nothing is claimed
/// of it.
#[verifier::external_body]
pub(crate) fn rust_language() -> Language {
    tree_sitter_rust::language()
}

/// `tree_sitter_javascript::language`: the grammar of JavaScript.
/// Nothing is claimed of it.
#[verifier::external_body]
pub(crate) fn javascript_language() -> Language {
    tree_sitter_javascript::language()
}

/// `Parser::set_language` on a new parser: the parser, if it accepts
/// the grammar. The contract only gives the result its name.
#[verifier::external_body]
pub(crate) fn parser_for(language: Language) -> (r: Option<Parser>)
    ensures
        r == parser_of(language),
{
    let mut parser = Parser::new();
    parser.set_language(language).ok().map(|_| parser)
}

/// `Parser::parse` of the whole text, without an earlier tree. The
/// contract only gives the result its name.
#[verifier::external_body]
pub(crate) fn parse_source(parser: &mut Parser, content: &str) -> (r: Option<Tree>)
    ensures
        r == tree_from(*old(parser), content@),
{
    parser.parse(content, None)
}

/// `Tree::root_node`. The contract only gives the result its name.
#[verifier::external_body]
pub(crate) fn tree_root<'t>(tree: &'t Tree) -> (r: Node<'t>)
    ensures
        r == root_of(tree),
{
    tree.root_node()
}

/// `Query::new`: the query for a pattern, if the grammar accepts it.
/// Only for the library's own patterns: on other patterns `Query::new`
/// may not return. The contract only gives the result its name.
#[verifier::external_body]
pub(crate) fn compile_query(language: Language, pattern: &str) -> (r: Option<Query>)
    requires
        known_pattern(pattern@),
    ensures
        r == query_for(language, pattern@),
{
    Query::new(language, pattern).ok()
}

/// `Query::capture_index_for_name`. The contract only gives the result
/// its name.
#[verifier::external_body]
pub(crate) fn capture_index(query: &Query, name: &str) -> (r: Option<u32>)
    ensures
        r == capture_of(*query, name@),
{
    query.capture_index_for_name(name)
}

/// The captures of each match.
pub open spec fn match_views<'t>(matches: Seq<Vec<(u32, Node<'t>)>>) -> Seq<Seq<(u32, Node<'t>)>> {
    Seq::new(matches.len(), |i: int| matches[i]@)
}

/// `QueryCursor::matches` on a new cursor: for each match below `node`,
/// in the order in which the cursor yields them, its captures as pairs
/// of capture index and node. Only for queries of the library's own
/// patterns, which hold no predicate: a predicate would make the cursor
/// read `content` at the places of the nodes. The contract only gives
/// the result its name.
#[verifier::external_body]
pub(crate) fn run_query<'t>(query: &Query, node: Node<'t>, content: &str) -> (r: Vec<
    Vec<(u32, Node<'t>)>,
>)
    requires
        known_query(*query),
    ensures
        match_views(r@) == matches_of(*query, node, content@),
{
    let mut cursor = QueryCursor::new();
    cursor.matches(query, node, content.as_bytes()).map(
        |m| m.captures.iter().map(|c| (c.index, c.node)).collect(),
    ).collect()
}

/// `Node::kind`. The contract only gives the result its name.
#[verifier::external_body]
pub(crate) fn node_kind(node: Node<'_>) -> (r: &'static str)
    ensures
        r@ == node_kind_of(node),
{
    node.kind()
}

/// `Node::start_position`: the row on which the node starts, counted
/// from 0. The contract only gives the result its name.
#[verifier::external_body]
pub(crate) fn node_start_row(node: Node<'_>) -> (r: usize)
    ensures
        r == node_first_row_of(node),
{
    node.start_position().row
}

/// `Node::end_position`: the row on which the node ends, counted from 0.
/// The contract only gives the result its name.
#[verifier::external_body]
pub(crate) fn node_end_row(node: Node<'_>) -> (r: usize)
    ensures
        r == node_last_row_of(node),
{
    node.end_position().row
}

/// `Node::byte_range`: the byte at which the node starts and the byte
/// behind its end. The contract only gives the result its name.
#[verifier::external_body]
pub(crate) fn node_span(node: Node<'_>) -> (r: (usize, usize))
    ensures
        r == node_span_of(node),
{
    let range = node.byte_range();
    (range.start, range.end)
}

/// The text of a node: the characters of `content` that start at the
/// bytes of the node.
pub(crate) fn node_text(node: Node<'_>, content: &str) -> (r: String)
    ensures
        r@ == node_text_of(node, content@),
{
    let (start, end) = node_span(node);
    crate::text::text_of(&crate::text::cut(&crate::text::chars_of(content), start, end))
}

/// `Node::child_by_field_name`. The contract only gives the result its
/// name.
#[verifier::external_body]
pub(crate) fn node_field<'t>(node: Node<'t>, name: &str) -> (r: Option<Node<'t>>)
    ensures
        r == node_field_of(node, name@),
{
    node.child_by_field_name(name)
}

/// `Node::children`: the children of the node, in order. The contract
/// only gives the result its name.
#[verifier::external_body]
pub(crate) fn node_children<'t>(node: Node<'t>) -> (r: Vec<Node<'t>>)
    ensures
        r@ == node_children_of(node),
{
    let mut cursor = node.walk();
    node.children(&mut cursor).collect()
}

/// `Node::parent`. The contract only gives the result its name.
#[verifier::external_body]
pub(crate) fn node_parent<'t>(node: Node<'t>) -> (r: Option<Node<'t>>)
    ensures
        r == node_parent_of(node),
{
    node.parent()
}

/// Whether `a` and `b` are the same text.
pub fn is_word(a: &str, b: &str) -> (r: bool)
    ensures
        r == (a@ == b@),
{
    crate::text::same_text(&crate::text::chars_of(a), &crate::text::chars_of(b))
}

/// Whether the node is of the given kind.
pub(crate) fn has_kind(node: Node<'_>, kind: &str) -> (r: bool)
    ensures
        r == (node_kind_of(node) == kind@),
{
    is_word(node_kind(node), kind)
}

/// The syntax tree that a new parser for the grammar makes of a text.
pub open spec fn tree_of(language: Language, content: Seq<char>) -> Option<Tree> {
    match parser_of(language) {
        Some(parser) => tree_from(parser, content),
        None => None,
    }
}

/// The syntax tree of `content` in the given grammar, if the parser
/// yields one.
pub(crate) fn syntax_tree(language: Language, content: &str) -> (r: Option<Tree>)
    ensures
        r == tree_of(language, content@),
{
    match parser_for(language) {
        Some(parser) => {
            let mut parser = parser;
            parse_source(&mut parser, content)
        },
        None => None,
    }
}

/// The nodes among the captures of one match that are captured under
/// the given index, in order.
pub open spec fn picked_in<'t>(captures: Seq<(u32, Node<'t>)>, index: u32) -> Seq<Node<'t>>
    decreases captures.len(),
{
    if captures.len() == 0 {
        Seq::empty()
    } else if captures.last().0 == index {
        picked_in(captures.drop_last(), index).push(captures.last().1)
    } else {
        picked_in(captures.drop_last(), index)
    }
}

/// The nodes that the matches capture under the given index, match by
/// match.
pub open spec fn picked<'t>(matches: Seq<Seq<(u32, Node<'t>)>>, index: u32) -> Seq<Node<'t>>
    decreases matches.len(),
{
    if matches.len() == 0 {
        Seq::empty()
    } else {
        picked(matches.drop_last(), index) + picked_in(matches.last(), index)
    }
}

/// The nodes that `pattern` captures under the name `capture` below
/// `root`, in the order of the matches; `None` if the grammar does not
/// accept the pattern or the pattern has no such capture.
pub open spec fn captured<'t>(
    language: Language,
    pattern: Seq<char>,
    capture: Seq<char>,
    root: Node<'t>,
    content: Seq<char>,
) -> Option<Seq<Node<'t>>> {
    match query_for(language, pattern) {
        Some(query) => match capture_of(query, capture) {
            Some(index) => Some(picked(matches_of(query, root, content), index)),
            None => None,
        },
        None => None,
    }
}

/// The nodes that `pattern` captures under the name `capture` below
/// `root`, in the order of the matches; `None` if the grammar does not
/// accept the pattern or the pattern has no such capture.
pub(crate) fn captured_nodes<'t>(
    language: Language,
    pattern: &str,
    capture: &str,
    root: Node<'t>,
    content: &str,
) -> (r: Option<Vec<Node<'t>>>)
    requires
        known_pattern(pattern@),
    ensures
        match r {
            Some(nodes) => captured(language, pattern@, capture@, root, content@) == Some(nodes@),
            None => captured(language, pattern@, capture@, root, content@) is None,
        },
{
    let query = match compile_query(language, pattern) {
        Some(query) => query,
        None => {
            return None;
        },
    };
    let index = match capture_index(&query, capture) {
        Some(index) => index,
        None => {
            return None;
        },
    };
    assert(query_for(language, pattern@) == Some(query));
    let matches = run_query(&query, root, content);
    let ghost all = match_views(matches@);
    let mut nodes: Vec<Node<'t>> = Vec::new();
    let mut i: usize = 0;
    assert(all.take(0) =~= Seq::<Seq<(u32, Node<'t>)>>::empty());
    assert(nodes@ =~= picked(all.take(0), index));
    while i < matches.len()
        invariant
            i <= matches.len(),
            all == match_views(matches@),
            nodes@ == picked(all.take(i as int), index),
        decreases matches.len() - i,
    {
        let captures = &matches[i];
        let ghost before = nodes@;
        let mut j: usize = 0;
        assert(all.take(i + 1).drop_last() =~= all.take(i as int));
        assert(all.take(i + 1).last() == captures@);
        assert(captures@.take(0) =~= Seq::<(u32, Node<'t>)>::empty());
        assert(nodes@ =~= before + picked_in(captures@.take(0), index));
        while j < captures.len()
            invariant
                j <= captures.len(),
                nodes@ == before + picked_in(captures@.take(j as int), index),
            decreases captures.len() - j,
        {
            assert(captures@.take(j + 1).drop_last() =~= captures@.take(j as int));
            assert(captures@.take(j + 1).last() == captures@[j as int]);
            if captures[j].0 == index {
                nodes.push(captures[j].1);
                assert(nodes@ =~= before + picked_in(captures@.take(j + 1), index));
            }
            j += 1;
        }
        assert(captures@.take(captures.len() as int) =~= captures@);
        i += 1;
    }
    assert(all.take(matches.len() as int) =~= all);
    Some(nodes)
}

/// The nodes among `nodes` that are of the given kind, in order.
pub open spec fn of_kind<'t>(nodes: Seq<Node<'t>>, kind: Seq<char>) -> Seq<Node<'t>>
    decreases nodes.len(),
{
    if nodes.len() == 0 {
        Seq::empty()
    } else if node_kind_of(nodes.last()) == kind {
        of_kind(nodes.drop_last(), kind).push(nodes.last())
    } else {
        of_kind(nodes.drop_last(), kind)
    }
}

/// The children of `node` that are of the given kind, in order.
pub(crate) fn children_of_kind<'t>(node: Node<'t>, kind: &str) -> (r: Vec<Node<'t>>)
    ensures
        r@ == of_kind(node_children_of(node), kind@),
{
    let children = node_children(node);
    let mut found: Vec<Node<'t>> = Vec::new();
    let mut i: usize = 0;
    assert(children@.take(0) =~= Seq::<Node<'t>>::empty());
    assert(found@ =~= of_kind(children@.take(0), kind@));
    while i < children.len()
        invariant
            i <= children.len(),
            found@ == of_kind(children@.take(i as int), kind@),
        decreases children.len() - i,
    {
        assert(children@.take(i + 1).drop_last() =~= children@.take(i as int));
        assert(children@.take(i + 1).last() == children@[i as int]);
        if has_kind(children[i], kind) {
            found.push(children[i]);
        }
        i += 1;
    }
    assert(children@.take(children.len() as int) =~= children@);
    found
}

/// The line, counted from 1, of a row counted from 0; the largest
/// number there is for the largest row.
pub open spec fn line_after(row: usize) -> nat {
    if row < usize::MAX {
        (row + 1) as nat
    } else {
        row as nat
    }
}

/// The line, counted from 1, of a row counted from 0.
pub fn line_of_row(row: usize) -> (r: usize)
    ensures
        r == line_after(row),
{
    row.saturating_add(1)
}

/// What a grammar reports of a definition that spans the rows from
/// `first_row` to `last_row`, counted from 0.
pub fn definition_on_rows(
    name: String,
    first_row: usize,
    last_row: usize,
    parameters: Vec<Parameter>,
    annotation: Option<String>,
) -> (r: Definition)
    ensures
        r@ == (DefinitionView {
            name: name@,
            first_line: line_after(first_row),
            last_line: line_after(last_row),
            parameters: parameter_views(parameters@),
            returns: text_option(annotation),
            inline_doc: None,
        }),
{
    Definition {
        name,
        first_line: line_of_row(first_row),
        last_line: line_of_row(last_row),
        parameters,
        returns: annotation,
        inline_doc: None,
    }
}

/// The text of the node in the field `name` of a node; the empty text
/// where the node has no such field.
pub open spec fn name_text(node: Node<'_>, content: Seq<char>) -> Seq<char> {
    match node_field_of(node, "name"@) {
        Some(name) => node_text_of(name, content),
        None => Seq::empty(),
    }
}

/// The text of an optional node.
pub open spec fn text_if(node: Option<Node<'_>>, content: Seq<char>) -> Option<Seq<char>> {
    match node {
        Some(node) => Some(node_text_of(node, content)),
        None => None,
    }
}

/// Whether there is a node, and it is of the given kind.
pub open spec fn kind_is(node: Option<Node<'_>>, kind: Seq<char>) -> bool {
    node matches Some(n) && node_kind_of(n) == kind
}

/// The text of an optional node.
pub(crate) fn text_of_node(node: Option<Node<'_>>, content: &str) -> (r: Option<String>)
    ensures
        text_option(r) == text_if(node, content@),
{
    match node {
        Some(node) => Some(node_text(node, content)),
        None => None,
    }
}

/// The kind of an optional node.
pub(crate) fn kind_of_node(node: Option<Node<'_>>) -> (r: Option<&'static str>)
    ensures
        match node {
            Some(n) => r matches Some(kind) && kind@ == node_kind_of(n),
            None => r is None,
        },
{
    match node {
        Some(node) => Some(node_kind(node)),
        None => None,
    }
}

/// Whether an optional word is the given word.
pub open spec fn names(word: Option<&str>, wanted: Seq<char>) -> bool {
    word matches Some(w) && w@ == wanted
}

/// Whether an optional word is the given word.
pub fn is_named(word: Option<&str>, wanted: &str) -> (r: bool)
    ensures
        r == names(word, wanted@),
{
    match word {
        Some(w) => is_word(w, wanted),
        None => false,
    }
}

} // verus!
