//! The records that describe a parsed source text.

use crate::error::DocGenResult;
use crate::lang::javascript::JavaScriptParser;
use crate::lang::python::{python_parsed, PythonParser};
use crate::lang::rust::RustParser;
use crate::lang::typescript::{typescript_items, TypeScriptParser};
use crate::lang::{parsed_from, LanguageParser};
use crate::rewrite::DocConvention;
use vstd::prelude::*;

verus! {

/// What kind of definition an item is.
#[derive(Clone, Copy, Debug, PartialEq, Eq, Structural)]
pub enum ItemType {
    Function,
    Method,
    Class,
}

impl ItemType {
    /// The lower-case word for the kind.
    pub open spec fn word(self) -> Seq<char> {
        match self {
            ItemType::Function => "function"@,
            ItemType::Method => "method"@,
            ItemType::Class => "class"@,
        }
    }

    /// The lower-case word for the kind.
    pub fn as_str(&self) -> (r: &'static str)
        ensures
            r@ == self.word(),
    {
        match self {
            ItemType::Function => "function",
            ItemType::Method => "method",
            ItemType::Class => "class",
        }
    }
}

/// One documentable unit of a source text.
#[derive(Debug, Clone)]
pub struct CodeItem {
    /// Function, method or class.
    pub item_type: ItemType,
    /// The name that the definition introduces.
    pub name: String,
    /// The line on which the definition starts, counted from 1.
    pub line_number: usize,
    /// The line on which the definition ends, counted from 1.
    pub end_line: usize,
    /// The source lines of the definition, from its first to its last.
    pub code: String,
    /// The documentation found for the definition, if any.
    pub existing_docstring: Option<String>,
    /// The class that owns a method.
    pub parent: Option<String>,
    /// The encoded parameters, in declaration order.
    pub parameters: Vec<String>,
    /// The text of the return annotation, if any.
    pub returns: Option<String>,
    /// The leading white space of the line on which the definition starts.
    pub indentation: String,
}

/// The items of one source text, in discovery order, and the text itself.
#[derive(Debug)]
pub struct ParsedCode {
    pub items: Vec<CodeItem>,
    pub original_content: String,
}

/// The contents of an optional string.
pub open spec fn text_option(o: Option<String>) -> Option<Seq<char>> {
    match o {
        Some(s) => Some(s@),
        None => None,
    }
}

/// The contents of a sequence of strings.
pub open spec fn texts(v: Seq<String>) -> Seq<Seq<char>> {
    Seq::new(v.len(), |i: int| v[i]@)
}

/// The mathematical value of a [`CodeItem`].
pub struct CodeItemView {
    pub item_type: ItemType,
    pub name: Seq<char>,
    pub line_number: nat,
    pub end_line: nat,
    pub code: Seq<char>,
    pub existing_docstring: Option<Seq<char>>,
    pub parent: Option<Seq<char>>,
    pub parameters: Seq<Seq<char>>,
    pub returns: Option<Seq<char>>,
    pub indentation: Seq<char>,
}

impl View for CodeItem {
    type V = CodeItemView;

    open spec fn view(&self) -> CodeItemView {
        CodeItemView {
            item_type: self.item_type,
            name: self.name@,
            line_number: self.line_number as nat,
            end_line: self.end_line as nat,
            code: self.code@,
            existing_docstring: text_option(self.existing_docstring),
            parent: text_option(self.parent),
            parameters: texts(self.parameters@),
            returns: text_option(self.returns),
            indentation: self.indentation@,
        }
    }
}

/// The values of a sequence of items.
pub open spec fn item_views(items: Seq<CodeItem>) -> Seq<CodeItemView> {
    Seq::new(items.len(), |i: int| items[i]@)
}

/// The mathematical value of a [`ParsedCode`].
pub struct ParsedCodeView {
    pub items: Seq<CodeItemView>,
    pub original_content: Seq<char>,
}

impl View for ParsedCode {
    type V = ParsedCodeView;

    open spec fn view(&self) -> ParsedCodeView {
        ParsedCodeView {
            items: item_views(self.items@),
            original_content: self.original_content@,
        }
    }
}

/// The items of a Python text: those of the functions and classes
/// that the grammar reports, each documented by the string literal that
/// opens its body, or without one by the `#` lines above it. Fails,
/// with the grammar's words, if the text is no Python module.
pub fn parse_python(content: &str) -> (r: DocGenResult<ParsedCode>)
    ensures
        python_parsed(content@, r),
{
    PythonParser::new().parse(content)
}

/// The items of a Rust text: those of the functions, structs and
/// methods that the grammar of Rust reports, each documented by the
/// `///` lines above it. Fails if the grammar yields no tree.
pub fn parse_rust(content: &str) -> (r: DocGenResult<ParsedCode>)
    ensures
        exists|grammar: tree_sitter::Language|
            parsed_from(
                DocConvention::LineComments,
                content@,
                #[trigger] crate::lang::rust::found_in(grammar, content@),
                r,
            ),
{
    let parser = RustParser::new();
    let r = parser.parse(content);
    assert(parsed_from(
        DocConvention::LineComments,
        content@,
        crate::lang::rust::found_in(parser.grammar(), content@),
        r,
    ));
    r
}

/// The items of a JavaScript text: those of the functions, classes and
/// methods that the grammar of JavaScript reports, each documented by
/// the `/** ... */` block above it. Fails if the grammar yields no tree.
pub fn parse_javascript(content: &str) -> (r: DocGenResult<ParsedCode>)
    ensures
        exists|grammar: tree_sitter::Language|
            parsed_from(
                DocConvention::BlockComment,
                content@,
                #[trigger] crate::lang::javascript::found_in(grammar, content@),
                r,
            ),
{
    let parser = JavaScriptParser::new();
    let r = parser.parse(content);
    assert(parsed_from(
        DocConvention::BlockComment,
        content@,
        crate::lang::javascript::found_in(parser.grammar(), content@),
        r,
    ));
    r
}

/// The items of a TypeScript text: those of the functions and classes
/// that stand outside all braces, each class followed by the methods of
/// its body. Never fails.
pub fn parse_typescript(content: &str) -> (r: DocGenResult<ParsedCode>)
    ensures
        r matches Ok(parsed) && parsed@.original_content == content@ && parsed@.items
            == typescript_items(content@),
{
    TypeScriptParser::new().parse(content)
}

} // verus!
