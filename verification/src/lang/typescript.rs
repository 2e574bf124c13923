//! TypeScript, read by the shape of its definitions.
//!
//! No grammar stands behind this parser: functions and classes are
//! found by keyword, name and parentheses, class bodies by counting
//! braces, methods by their shape inside a class body. It never fails;
//! text that it cannot make sense of yields fewer items or none.

use super::LanguageParser;
use crate::docstring::{issues_of, update_views, UpdatedDocstring};
use crate::error::{DocGenError, DocGenResult};
use crate::extract::{collect_items, items_of};
use crate::lines::lines_of;
use crate::parser::{CodeItemView, ParsedCode};
use crate::pattern::{declarations_in, find_declarations};
use crate::rewrite::{rewrite, rewritten, DocConvention};
use crate::text::chars_of;
use vstd::prelude::*;

verus! {

/// The items of a TypeScript text: those of the functions and classes
/// that stand outside all braces, each class followed by the methods of
/// its body. A definition is documented by the `/** ... */` block above
/// it.
pub open spec fn typescript_items(content: Seq<char>) -> Seq<CodeItemView> {
    items_of(DocConvention::BlockComment, lines_of(content), declarations_in(content))
}

/// TypeScript source text.
pub struct TypeScriptParser;

impl TypeScriptParser {
    pub fn new() -> (r: Self) {
        TypeScriptParser
    }
}

impl LanguageParser for TypeScriptParser {
    open spec fn convention(&self) -> DocConvention {
        DocConvention::BlockComment
    }

    /// The items of `content`. Never fails.
    fn parse(&self, content: &str) -> (r: DocGenResult<ParsedCode>)
        ensures
            r matches Ok(parsed) && parsed@.original_content == content@ && parsed@.items
                == typescript_items(content@),
    {
        let declarations = find_declarations(&chars_of(content));
        let parsed = collect_items(DocConvention::BlockComment, content, &declarations);
        assert(parsed@.items == items_of(
            self.convention(),
            lines_of(content@),
            declarations_in(content@),
        ));
        Ok(parsed)
    }

    /// Rewrites `content` with the updates resolved against its own
    /// items: the documentation goes above each definition as a
    /// `/** ... */` block, in place of the one that stands there.
    /// Fails, with nothing rewritten, if an update names an item that
    /// `content` does not have.
    fn update_content(&self, content: &str, updated_docstrings: &[UpdatedDocstring]) -> (r:
        DocGenResult<String>)
        ensures
            match rewritten(
                DocConvention::BlockComment,
                content@,
                typescript_items(content@),
                update_views(updated_docstrings@),
            ) {
                Some(text) => r matches Ok(s) && s@ == text,
                None => r matches Err(DocGenError::UpdateError(_)),
            },
    {
        let declarations = find_declarations(&chars_of(content));
        let parsed = collect_items(DocConvention::BlockComment, content, &declarations);
        let r = rewrite(DocConvention::BlockComment, content, &parsed.items, updated_docstrings);
        proof {
            if r is Ok {
                assert(rewritten(
                    self.convention(),
                    content@,
                    typescript_items(content@),
                    update_views(updated_docstrings@),
                ) == Some(r->Ok_0@));
            } else {
                assert(rewritten(
                    self.convention(),
                    content@,
                    typescript_items(content@),
                    update_views(updated_docstrings@),
                ) is None);
            }
        }
        r
    }
}

/// A text in which no function and no class is found has no issues.
pub proof fn lemma_nothing_found_nothing_reported(content: Seq<char>)
    requires
        declarations_in(content).len() == 0,
    ensures
        issues_of(typescript_items(content)).len() == 0,
{
    assert(declarations_in(content) =~= Seq::empty());
}

} // verus!
