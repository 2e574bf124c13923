//! The languages that the library reads and rewrites.

use crate::docstring::{update_views, UpdatedDocstring, UpdatedDocstringView};
use crate::error::{DocGenError, DocGenResult};
use crate::extract::{items_of, DeclarationView};
use crate::lines::lines_of;
use crate::parser::{CodeItemView, ParsedCode};
use crate::rewrite::{rewritten, DocConvention};
use crate::text::{chars_of, same_text};
use vstd::prelude::*;

pub mod grammar;
pub mod javascript;
pub mod python;
pub mod rust;
pub mod typescript;

verus! {

/// What the library can do with the source text of one language.
pub trait LanguageParser {
    /// How the language writes documentation.
    spec fn convention(&self) -> DocConvention;

    /// Finds the documentable items of `content`: the items of some
    /// functions and classes, with the documentation that the text
    /// shows for them.
    fn parse(&self, content: &str) -> (r: DocGenResult<ParsedCode>)
        ensures
            match r {
                Ok(parsed) => parsed@.original_content == content@ && exists|
                    declarations: Seq<DeclarationView>,
                |
                    parsed@.items == items_of(self.convention(), lines_of(content@), declarations),
                Err(e) => e is ParsingError,
            },
    ;

    /// Rewrites `content` so that the items named by the updates carry
    /// the new documentation. The updates are resolved against the items
    /// of `content` itself: the result is that of `rewrite` for some
    /// items, its text or its failure. Without updates the text comes
    /// back as it is.
    fn update_content(&self, content: &str, updated_docstrings: &[UpdatedDocstring]) -> (r:
        DocGenResult<String>)
        ensures
            match r {
                Ok(text) => exists|items: Seq<CodeItemView>|
                    rewritten(
                        self.convention(),
                        content@,
                        items,
                        update_views(updated_docstrings@),
                    ) == Some(text@),
                Err(e) => e is ParsingError || (e is UpdateError && exists|
                    items: Seq<CodeItemView>,
                |
                    rewritten(
                        self.convention(),
                        content@,
                        items,
                        update_views(updated_docstrings@),
                    ) is None),
            },
            r is Ok && updated_docstrings@.len() == 0 ==> r->Ok_0@ == content@,
    ;
}

/// Whether `r` is what parsing `content` gives where the grammar found
/// `found`: the items of what was found, or a parsing error where the
/// grammar found nothing to go by.
pub open spec fn parsed_from(
    convention: DocConvention,
    content: Seq<char>,
    found: Option<Seq<DeclarationView>>,
    r: DocGenResult<ParsedCode>,
) -> bool {
    match found {
        Some(declarations) => r matches Ok(parsed) && parsed@.original_content == content
            && parsed@.items == items_of(convention, lines_of(content), declarations),
        None => r matches Err(DocGenError::ParsingError(_)),
    }
}

/// Whether `r` is what rewriting `content` gives where the grammar
/// found `found`: the text that `rewritten` tells for the items of what
/// was found, an update error where it tells none, or a parsing error
/// where the grammar found nothing to go by.
pub open spec fn updated_from(
    convention: DocConvention,
    content: Seq<char>,
    found: Option<Seq<DeclarationView>>,
    updates: Seq<UpdatedDocstringView>,
    r: DocGenResult<String>,
) -> bool {
    match found {
        Some(declarations) => match rewritten(
            convention,
            content,
            items_of(convention, lines_of(content), declarations),
            updates,
        ) {
            Some(text) => r matches Ok(s) && s@ == text,
            None => r matches Err(DocGenError::UpdateError(_)),
        },
        None => r matches Err(DocGenError::ParsingError(_)),
    }
}

/// How a language writes documentation.
pub open spec fn convention_of(language: SourceLanguage) -> DocConvention {
    match language {
        SourceLanguage::Python => DocConvention::InlineLiteral,
        SourceLanguage::Rust => DocConvention::LineComments,
        SourceLanguage::JavaScript => DocConvention::BlockComment,
        SourceLanguage::TypeScript => DocConvention::BlockComment,
        SourceLanguage::Auto => DocConvention::InlineLiteral,
    }
}

/// A language that a caller can ask for.
#[derive(Clone, Copy, Debug, PartialEq, Eq, Structural)]
pub enum SourceLanguage {
    Python,
    Rust,
    JavaScript,
    TypeScript,
    /// To be told from the name of the file.
    Auto,
}

/// The language that a file name extension stands for.
pub open spec fn language_of_extension(extension: Seq<char>) -> Option<SourceLanguage> {
    if extension == "py"@ {
        Some(SourceLanguage::Python)
    } else if extension == "rs"@ {
        Some(SourceLanguage::Rust)
    } else if extension == "js"@ {
        Some(SourceLanguage::JavaScript)
    } else if extension == "ts"@ || extension == "tsx"@ {
        Some(SourceLanguage::TypeScript)
    } else {
        None
    }
}

/// A language, and whether it was chosen for want of a better one.
#[derive(Clone, Copy, Debug, PartialEq, Eq, Structural)]
pub struct Detected {
    pub language: SourceLanguage,
    /// The extension stands for no language and `language` is the
    /// default.
    pub fallback: bool,
}

/// The language of a file with the given extension: Python, as a
/// fallback, where there is no extension or it stands for no language.
pub fn detect_language(extension: Option<&str>) -> (r: Detected)
    ensures
        r == match extension {
            Some(e) => match language_of_extension(e@) {
                Some(language) => Detected { language, fallback: false },
                None => Detected { language: SourceLanguage::Python, fallback: true },
            },
            None => Detected { language: SourceLanguage::Python, fallback: true },
        },
{
    let e = match extension {
        Some(e) => chars_of(e),
        None => {
            return Detected { language: SourceLanguage::Python, fallback: true };
        },
    };
    if same_text(&e, &chars_of("py")) {
        Detected { language: SourceLanguage::Python, fallback: false }
    } else if same_text(&e, &chars_of("rs")) {
        Detected { language: SourceLanguage::Rust, fallback: false }
    } else if same_text(&e, &chars_of("js")) {
        Detected { language: SourceLanguage::JavaScript, fallback: false }
    } else if same_text(&e, &chars_of("ts")) || same_text(&e, &chars_of("tsx")) {
        Detected { language: SourceLanguage::TypeScript, fallback: false }
    } else {
        Detected { language: SourceLanguage::Python, fallback: true }
    }
}

/// The parser of one of the languages.
pub enum Extractor {
    Python(python::PythonParser),
    Rust(rust::RustParser),
    JavaScript(javascript::JavaScriptParser),
    TypeScript(typescript::TypeScriptParser),
}

impl Extractor {
    /// Whether `r` is what this parser makes of `content`: what the
    /// parser of its language makes of it.
    pub open spec fn parses(self, content: Seq<char>, r: DocGenResult<ParsedCode>) -> bool {
        match self {
            Extractor::Python(_) => python::python_parsed(content, r),
            Extractor::Rust(p) => parsed_from(
                DocConvention::LineComments,
                content,
                rust::found_in(p.grammar(), content),
                r,
            ),
            Extractor::JavaScript(p) => parsed_from(
                DocConvention::BlockComment,
                content,
                javascript::found_in(p.grammar(), content),
                r,
            ),
            Extractor::TypeScript(_) => parsed_from(
                DocConvention::BlockComment,
                content,
                Some(crate::pattern::declarations_in(content)),
                r,
            ),
        }
    }

    /// Whether `r` is what this parser makes of `content` and the
    /// updates: what the parser of its language makes of them.
    pub open spec fn rewrites(
        self,
        content: Seq<char>,
        updates: Seq<UpdatedDocstringView>,
        r: DocGenResult<String>,
    ) -> bool {
        match self {
            Extractor::Python(_) => python::python_updated(content, updates, r),
            Extractor::Rust(p) => updated_from(
                DocConvention::LineComments,
                content,
                rust::found_in(p.grammar(), content),
                updates,
                r,
            ),
            Extractor::JavaScript(p) => updated_from(
                DocConvention::BlockComment,
                content,
                javascript::found_in(p.grammar(), content),
                updates,
                r,
            ),
            Extractor::TypeScript(_) => updated_from(
                DocConvention::BlockComment,
                content,
                Some(crate::pattern::declarations_in(content)),
                updates,
                r,
            ),
        }
    }

    /// The language that the parser reads.
    pub open spec fn language(self) -> SourceLanguage {
        match self {
            Extractor::Python(_) => SourceLanguage::Python,
            Extractor::Rust(_) => SourceLanguage::Rust,
            Extractor::JavaScript(_) => SourceLanguage::JavaScript,
            Extractor::TypeScript(_) => SourceLanguage::TypeScript,
        }
    }
}

impl LanguageParser for Extractor {
    open spec fn convention(&self) -> DocConvention {
        convention_of(self.language())
    }

    /// The items of `content`, as the parser of the language finds
    /// them.
    fn parse(&self, content: &str) -> (r: DocGenResult<ParsedCode>)
        ensures
            self.parses(content@, r),
    {
        let r = match self {
            Extractor::Python(p) => p.parse(content),
            Extractor::Rust(p) => p.parse(content),
            Extractor::JavaScript(p) => p.parse(content),
            Extractor::TypeScript(p) => p.parse(content),
        };
        proof {
            if r is Ok {
                let declarations = choose|declarations: Seq<DeclarationView>|
                    r->Ok_0@.items == items_of(
                        self.convention(),
                        lines_of(content@),
                        declarations,
                    );
                assert(r->Ok_0@.items == items_of(
                    self.convention(),
                    lines_of(content@),
                    declarations,
                ));
            }
        }
        r
    }

    /// The rewritten `content`, as the parser of the language rewrites
    /// it.
    fn update_content(&self, content: &str, updated_docstrings: &[UpdatedDocstring]) -> (r:
        DocGenResult<String>)
        ensures
            self.rewrites(content@, update_views(updated_docstrings@), r),
    {
        let r = match self {
            Extractor::Python(p) => p.update_content(content, updated_docstrings),
            Extractor::Rust(p) => p.update_content(content, updated_docstrings),
            Extractor::JavaScript(p) => p.update_content(content, updated_docstrings),
            Extractor::TypeScript(p) => p.update_content(content, updated_docstrings),
        };
        proof {
            if r is Ok {
                let items = choose|items: Seq<CodeItemView>|
                    rewritten(
                        self.convention(),
                        content@,
                        items,
                        update_views(updated_docstrings@),
                    ) == Some(r->Ok_0@);
                assert(rewritten(
                    self.convention(),
                    content@,
                    items,
                    update_views(updated_docstrings@),
                ) == Some(r->Ok_0@));
            } else if r->Err_0 is UpdateError {
                let items = choose|items: Seq<CodeItemView>|
                    rewritten(
                        self.convention(),
                        content@,
                        items,
                        update_views(updated_docstrings@),
                    ) is None;
                assert(rewritten(
                    self.convention(),
                    content@,
                    items,
                    update_views(updated_docstrings@),
                ) is None);
            }
        }
        r
    }
}

/// A parser, and the warning to show where it is not the parser of the
/// language that was asked for.
pub struct Selection {
    pub parser: Extractor,
    pub warning: Option<String>,
}

/// The warning that goes with the fallback parser.
pub open spec fn fallback_warning() -> Seq<char> {
    "Warning: Requested language not fully implemented. Using Python parser instead."@
}

/// The parser for a language. Each language has its own; for
/// `SourceLanguage::Auto`, which names none, the Python parser is selected
/// and the selection carries a warning.
pub fn get_parser(language: &SourceLanguage) -> (r: Selection)
    ensures
        match *language {
            SourceLanguage::Auto => {
                &&& r.parser.language() == SourceLanguage::Python
                &&& r.warning matches Some(w) && w@ == fallback_warning()
            },
            named => r.parser.language() == named && r.warning is None,
        },
{
    match language {
        SourceLanguage::Python => Selection {
            parser: Extractor::Python(python::PythonParser::new()),
            warning: None,
        },
        SourceLanguage::Rust => Selection {
            parser: Extractor::Rust(rust::RustParser::new()),
            warning: None,
        },
        SourceLanguage::JavaScript => Selection {
            parser: Extractor::JavaScript(javascript::JavaScriptParser::new()),
            warning: None,
        },
        SourceLanguage::TypeScript => Selection {
            parser: Extractor::TypeScript(typescript::TypeScriptParser::new()),
            warning: None,
        },
        SourceLanguage::Auto => Selection {
            parser: Extractor::Python(python::PythonParser::new()),
            warning: Some(
                String::from_str(
                    "Warning: Requested language not fully implemented. Using Python parser instead.",
                ),
            ),
        },
    }
}

} // verus!
