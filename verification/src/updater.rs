//! Rewriting the text of a file in a given language.

use crate::docstring::{update_views, UpdatedDocstring, UpdatedDocstringView};
use crate::error::DocGenResult;
use crate::lang::python::python_updated;
use crate::lang::{get_parser, updated_from, Extractor, LanguageParser, SourceLanguage};
use crate::pattern::declarations_in;
use crate::rewrite::DocConvention;
use vstd::prelude::*;

verus! {

/// Whether `r` is what rewriting a text in `language` gives: what the
/// parser of the language makes of the text and the updates. Without a
/// named language the text is read as Python. The grammars of Rust and
/// JavaScript come from outside; the result is that for the grammar in
/// use.
pub open spec fn file_updated(
    language: SourceLanguage,
    content: Seq<char>,
    updates: Seq<UpdatedDocstringView>,
    r: DocGenResult<String>,
) -> bool {
    match language {
        SourceLanguage::Python => python_updated(content, updates, r),
        SourceLanguage::Auto => python_updated(content, updates, r),
        SourceLanguage::Rust => exists|grammar: tree_sitter::Language|
            updated_from(
                DocConvention::LineComments,
                content,
                #[trigger] crate::lang::rust::found_in(grammar, content),
                updates,
                r,
            ),
        SourceLanguage::JavaScript => exists|grammar: tree_sitter::Language|
            updated_from(
                DocConvention::BlockComment,
                content,
                #[trigger] crate::lang::javascript::found_in(grammar, content),
                updates,
                r,
            ),
        SourceLanguage::TypeScript => updated_from(
            DocConvention::BlockComment,
            content,
            Some(declarations_in(content)),
            updates,
            r,
        ),
    }
}

/// Rewrites `original_content`, a text in `language`, so that the items
/// named by the updates carry the new documentation, written as the
/// language writes it. The updates are resolved against the items of
/// `original_content` itself: an update that names no item of the text
/// makes the whole rewrite fail. Without updates the text comes back as
/// it is.
pub fn update_file_content(
    original_content: &str,
    language: &SourceLanguage,
    updated_docstrings: &[UpdatedDocstring],
) -> (r: DocGenResult<String>)
    ensures
        file_updated(*language, original_content@, update_views(updated_docstrings@), r),
        r is Ok && updated_docstrings@.len() == 0 ==> r->Ok_0@ == original_content@,
{
    let selection = get_parser(language);
    let r = selection.parser.update_content(original_content, updated_docstrings);
    proof {
        match selection.parser {
            Extractor::Rust(p) => {
                assert(updated_from(
                    DocConvention::LineComments,
                    original_content@,
                    crate::lang::rust::found_in(p.grammar(), original_content@),
                    update_views(updated_docstrings@),
                    r,
                ));
            },
            Extractor::JavaScript(p) => {
                assert(updated_from(
                    DocConvention::BlockComment,
                    original_content@,
                    crate::lang::javascript::found_in(p.grammar(), original_content@),
                    update_views(updated_docstrings@),
                    r,
                ));
            },
            _ => {},
        }
    }
    r
}

} // verus!
