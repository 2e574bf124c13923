//! From the definitions that a grammar found to the items of a source
//! text.
//!
//! A grammar reports where the functions and classes of a text are and
//! what their signatures say. This module adds what the text itself
//! shows (the source lines of each definition, its indentation, the
//! documentation written above it) and lists the items in discovery
//! order: each class is followed by its methods.

use crate::block_comments::{preceding_block_doc, read_block_doc};
use crate::hash_comments::{preceding_hash_doc, read_hash_doc};
use crate::line_comments::{preceding_line_doc, read_line_doc};
use crate::lines::{copy_lines, join_lines, joined, lines_of, rows, split_lines};
use crate::parser::{
    item_views, text_option, texts, CodeItem, CodeItemView, ItemType, ParsedCode,
};
use crate::rewrite::DocConvention;
use crate::text::{chars_of, indentation, indentation_of, text_of};
use vstd::prelude::*;
use vstd::string::StringExecFns;

verus! {

/// How a parameter is declared.
#[derive(Clone, Copy, Debug, PartialEq, Eq, Structural)]
pub enum ParameterForm {
    /// A name alone.
    Plain,
    /// A name with a default value.
    WithDefault,
    /// A name that takes all further positional arguments.
    Variadic,
    /// A name that takes all further keyword arguments.
    KeywordVariadic,
}

/// One parameter of a definition.
#[derive(Debug)]
pub struct Parameter {
    pub name: String,
    pub form: ParameterForm,
}

/// The mathematical value of a [`Parameter`].
pub struct ParameterView {
    pub name: Seq<char>,
    pub form: ParameterForm,
}

impl View for Parameter {
    type V = ParameterView;

    open spec fn view(&self) -> ParameterView {
        ParameterView { name: self.name@, form: self.form }
    }
}

/// The text that stands for a parameter in an item: the name alone,
/// `name=` with a default value, `*name` for a variadic and `**name`
/// for a keyword-variadic parameter.
pub open spec fn encoded(p: ParameterView) -> Seq<char> {
    match p.form {
        ParameterForm::Plain => p.name,
        ParameterForm::WithDefault => p.name + seq!['='],
        ParameterForm::Variadic => seq!['*'] + p.name,
        ParameterForm::KeywordVariadic => seq!['*', '*'] + p.name,
    }
}

impl Parameter {
    /// The text that stands for the parameter in an item.
    pub fn encode(&self) -> (r: String)
        ensures
            r@ == encoded(self@),
    {
        let name = chars_of(self.name.as_str());
        let mut out: Vec<char> = Vec::new();
        match self.form {
            ParameterForm::Plain => {
                out = name;
            },
            ParameterForm::WithDefault => {
                out = name;
                out.push('=');
            },
            ParameterForm::Variadic => {
                out.push('*');
                out = crate::text::followed_by(&out, &name);
            },
            ParameterForm::KeywordVariadic => {
                out.push('*');
                out.push('*');
                out = crate::text::followed_by(&out, &name);
            },
        }
        assert(out@ =~= encoded(self@));
        text_of(&out)
    }
}

/// What a grammar reports of one function or class definition.
#[derive(Debug)]
pub struct Definition {
    /// The name that the definition introduces.
    pub name: String,
    /// The line on which the definition starts, counted from 1.
    pub first_line: usize,
    /// The line on which the definition ends, counted from 1.
    pub last_line: usize,
    /// The parameters, in declaration order.
    pub parameters: Vec<Parameter>,
    /// The text of the return annotation, if any.
    pub returns: Option<String>,
    /// The string literal that opens the body, if any.
    pub inline_doc: Option<String>,
}

/// The values of a sequence of parameters.
pub open spec fn parameter_views(v: Seq<Parameter>) -> Seq<ParameterView> {
    Seq::new(v.len(), |i: int| v[i]@)
}

/// The mathematical value of a [`Definition`].
pub struct DefinitionView {
    pub name: Seq<char>,
    pub first_line: nat,
    pub last_line: nat,
    pub parameters: Seq<ParameterView>,
    pub returns: Option<Seq<char>>,
    pub inline_doc: Option<Seq<char>>,
}

impl View for Definition {
    type V = DefinitionView;

    open spec fn view(&self) -> DefinitionView {
        DefinitionView {
            name: self.name@,
            first_line: self.first_line as nat,
            last_line: self.last_line as nat,
            parameters: parameter_views(self.parameters@),
            returns: text_option(self.returns),
            inline_doc: text_option(self.inline_doc),
        }
    }
}

/// The values of a sequence of definitions.
pub open spec fn definition_views(v: Seq<Definition>) -> Seq<DefinitionView> {
    Seq::new(v.len(), |i: int| v[i]@)
}

/// What a grammar reports at the top level of a text.
#[derive(Debug)]
pub enum Declaration {
    /// A function.
    Function(Definition),
    /// A class and the methods defined in its body.
    Class(Definition, Vec<Definition>),
    /// Methods of a type that is defined elsewhere: the name of the type
    /// and the methods.
    Methods(String, Vec<Definition>),
}

/// The mathematical value of a [`Declaration`].
pub enum DeclarationView {
    Function(DefinitionView),
    Class(DefinitionView, Seq<DefinitionView>),
    Methods(Seq<char>, Seq<DefinitionView>),
}

impl View for Declaration {
    type V = DeclarationView;

    open spec fn view(&self) -> DeclarationView {
        match self {
            Declaration::Function(d) => DeclarationView::Function(d@),
            Declaration::Class(c, methods) => DeclarationView::Class(
                c@,
                definition_views(methods@),
            ),
            Declaration::Methods(owner, methods) => DeclarationView::Methods(
                owner@,
                definition_views(methods@),
            ),
        }
    }
}

/// The values of a sequence of declarations.
pub open spec fn declaration_views(v: Seq<Declaration>) -> Seq<DeclarationView> {
    Seq::new(v.len(), |i: int| v[i]@)
}

/// The index of the first line of a definition's source among `count`
/// lines: the line before `first_line`, within the lines.
pub open spec fn block_start(count: nat, first_line: nat) -> int {
    if first_line == 0 {
        0
    } else if first_line - 1 <= count {
        first_line - 1
    } else {
        count as int
    }
}

/// One past the index of the last line of a definition's source among
/// `count` lines.
pub open spec fn block_end(count: nat, first_line: nat, last_line: nat) -> int {
    let start = block_start(count, first_line);
    if last_line <= start {
        start
    } else if last_line <= count {
        last_line as int
    } else {
        count as int
    }
}

/// The source of a definition: its lines, from the first to the last,
/// joined by line feeds.
pub open spec fn code_block(lines: Seq<Seq<char>>, first_line: nat, last_line: nat) -> Seq<char> {
    joined(
        lines.subrange(
            block_start(lines.len(), first_line),
            block_end(lines.len(), first_line, last_line),
        ),
    )
}

/// The documentation that stands above the definition on line `d`
/// (counted from 0), as the convention writes it: `///` lines, a
/// `/** ... */` block, or, where documentation is a literal in the
/// body, `#` comment lines.
pub open spec fn preceding_doc(convention: DocConvention, lines: Seq<Seq<char>>, d: int) -> Option<
    Seq<char>,
> {
    match convention {
        DocConvention::LineComments => preceding_line_doc(lines, d),
        DocConvention::BlockComment => preceding_block_doc(lines, d),
        DocConvention::InlineLiteral => preceding_hash_doc(lines, d),
    }
}

/// The documentation of a definition: the string literal that opens its
/// body where there is one, else the documentation that stands above
/// it.
pub open spec fn documentation(
    convention: DocConvention,
    lines: Seq<Seq<char>>,
    def: DefinitionView,
) -> Option<Seq<char>> {
    match def.inline_doc {
        Some(doc) => Some(doc),
        None => if 1 <= def.first_line <= lines.len() {
            preceding_doc(convention, lines, def.first_line - 1)
        } else {
            None
        },
    }
}

/// The encoded parameters of a definition.
pub open spec fn encoded_parameters(parameters: Seq<ParameterView>) -> Seq<Seq<char>> {
    Seq::new(parameters.len(), |i: int| encoded(parameters[i]))
}

/// The item for a definition.
pub open spec fn item_for(
    convention: DocConvention,
    lines: Seq<Seq<char>>,
    def: DefinitionView,
    item_type: ItemType,
    parent: Option<Seq<char>>,
) -> CodeItemView {
    CodeItemView {
        item_type,
        name: def.name,
        line_number: def.first_line,
        end_line: def.last_line,
        code: code_block(lines, def.first_line, def.last_line),
        existing_docstring: documentation(convention, lines, def),
        parent,
        parameters: encoded_parameters(def.parameters),
        returns: def.returns,
        indentation: if 1 <= def.first_line <= lines.len() {
            indentation_of(lines[def.first_line - 1])
        } else {
            Seq::empty()
        },
    }
}

/// The items for the methods of `owner`, in order.
pub open spec fn method_items(
    convention: DocConvention,
    lines: Seq<Seq<char>>,
    owner: Seq<char>,
    methods: Seq<DefinitionView>,
) -> Seq<CodeItemView> {
    Seq::new(
        methods.len(),
        |i: int| item_for(convention, lines, methods[i], ItemType::Method, Some(owner)),
    )
}

/// The items for one declaration: a function gives one item; a class
/// gives its own item, then one for each of its methods.
pub open spec fn declaration_items(
    convention: DocConvention,
    lines: Seq<Seq<char>>,
    declaration: DeclarationView,
) -> Seq<CodeItemView> {
    match declaration {
        DeclarationView::Function(d) => seq![
            item_for(convention, lines, d, ItemType::Function, None),
        ],
        DeclarationView::Class(c, methods) => seq![
            item_for(convention, lines, c, ItemType::Class, None),
        ] + method_items(convention, lines, c.name, methods),
        DeclarationView::Methods(owner, methods) => method_items(convention, lines, owner, methods),
    }
}

/// The items for the declarations, in order.
pub open spec fn items_of(
    convention: DocConvention,
    lines: Seq<Seq<char>>,
    declarations: Seq<DeclarationView>,
) -> Seq<CodeItemView>
    decreases declarations.len(),
{
    if declarations.len() == 0 {
        Seq::empty()
    } else {
        items_of(convention, lines, declarations.drop_last()) + declaration_items(
            convention,
            lines,
            declarations.last(),
        )
    }
}

/// A method is listed with the name of its class as parent, a function
/// and a class without a parent.
pub proof fn lemma_parents(
    convention: DocConvention,
    lines: Seq<Seq<char>>,
    declaration: DeclarationView,
)
    ensures
        ({
            let items = declaration_items(convention, lines, declaration);
            match declaration {
                DeclarationView::Function(d) => items.len() == 1 && items[0].parent is None
                    && items[0].item_type == ItemType::Function && items[0].name == d.name,
                DeclarationView::Class(c, methods) => {
                    &&& items.len() == 1 + methods.len()
                    &&& items[0].parent is None
                    &&& items[0].item_type == ItemType::Class
                    &&& items[0].name == c.name
                    &&& forall|i: int|
                        0 <= i < methods.len() ==> {
                            &&& (#[trigger] items[1 + i]).parent == Some(c.name)
                            &&& items[1 + i].item_type == ItemType::Method
                            &&& items[1 + i].name == methods[i].name
                        }
                },
                DeclarationView::Methods(owner, methods) => {
                    &&& items.len() == methods.len()
                    &&& forall|i: int|
                        0 <= i < methods.len() ==> {
                            &&& (#[trigger] items[i]).parent == Some(owner)
                            &&& items[i].item_type == ItemType::Method
                            &&& items[i].name == methods[i].name
                        }
                },
            }
        }),
{
}

/// Among the items of a text, exactly the methods have a parent.
pub proof fn lemma_only_methods_have_parents(
    convention: DocConvention,
    lines: Seq<Seq<char>>,
    declarations: Seq<DeclarationView>,
)
    ensures
        forall|i: int|
            0 <= i < items_of(convention, lines, declarations).len() ==> ((#[trigger] items_of(
                convention,
                lines,
                declarations,
            )[i]).parent is Some <==> items_of(convention, lines, declarations)[i].item_type
                == ItemType::Method),
    decreases declarations.len(),
{
    if declarations.len() > 0 {
        lemma_only_methods_have_parents(convention, lines, declarations.drop_last());
        lemma_parents(convention, lines, declarations.last());
        let before = items_of(convention, lines, declarations.drop_last());
        let added = declaration_items(convention, lines, declarations.last());
        assert forall|i: int| 0 <= i < (before + added).len() implies ((#[trigger] (before
            + added)[i]).parent is Some <==> (before + added)[i].item_type == ItemType::Method) by {
            if i >= before.len() {
                let k = i - before.len();
                assert((before + added)[i] == added[k]);
                match declarations.last() {
                    DeclarationView::Function(d) => {},
                    DeclarationView::Class(c, methods) => {
                        if k > 0 {
                            assert(added[1 + (k - 1)].parent == Some(c.name));
                        }
                    },
                    DeclarationView::Methods(owner, methods) => {},
                }
            }
        }
    }
}

/// A text without declarations has no items.
pub proof fn lemma_no_declarations_no_items(convention: DocConvention, lines: Seq<Seq<char>>)
    ensures
        items_of(convention, lines, Seq::empty()).len() == 0,
{
}

/// The documentation that stands above the definition on line `d`.
pub fn read_preceding_doc(convention: DocConvention, lines: &Vec<Vec<char>>, d: usize) -> (r:
    Option<Vec<char>>)
    requires
        d <= lines.len(),
    ensures
        match r {
            Some(text) => preceding_doc(convention, rows(lines@), d as int) == Some(text@),
            None => preceding_doc(convention, rows(lines@), d as int) is None,
        },
{
    match convention {
        DocConvention::LineComments => read_line_doc(lines, d),
        DocConvention::BlockComment => read_block_doc(lines, d),
        DocConvention::InlineLiteral => read_hash_doc(lines, d),
    }
}

/// A copy of an optional string.
pub fn copy_text_option(o: &Option<String>) -> (r: Option<String>)
    ensures
        text_option(r) == text_option(*o),
{
    match o {
        Some(s) => Some(s.clone()),
        None => None,
    }
}

/// The item for a definition of a text with the given lines.
pub fn make_item(
    convention: DocConvention,
    lines: &Vec<Vec<char>>,
    def: &Definition,
    item_type: ItemType,
    parent: Option<String>,
) -> (r: CodeItem)
    ensures
        r@ == item_for(convention, rows(lines@), def@, item_type, text_option(parent)),
{
    let ghost all = rows(lines@);
    let count: usize = lines.len();
    let start: usize = if def.first_line == 0 {
        0
    } else if def.first_line - 1 <= count {
        def.first_line - 1
    } else {
        count
    };
    let end: usize = if def.last_line <= start {
        start
    } else if def.last_line <= count {
        def.last_line
    } else {
        count
    };
    let code = join_lines(&copy_lines(lines, start, end));
    let placed: bool = 1 <= def.first_line && def.first_line <= count;
    let existing: Option<String> = match &def.inline_doc {
        Some(doc) => Some(doc.clone()),
        None => if placed {
            match read_preceding_doc(convention, lines, def.first_line - 1) {
                Some(text) => Some(text_of(&text)),
                None => None,
            }
        } else {
            None
        },
    };
    let indent: String = if placed {
        assert(all[def.first_line - 1] == lines@[def.first_line - 1]@);
        text_of(&indentation(&lines[def.first_line - 1]))
    } else {
        String::new()
    };
    let mut parameters: Vec<String> = Vec::new();
    let mut i: usize = 0;
    while i < def.parameters.len()
        invariant
            i <= def.parameters.len(),
            parameters.len() == i,
            forall|k: int|
                0 <= k < i ==> (#[trigger] parameters@[k])@ == encoded(def.parameters@[k]@),
        decreases def.parameters.len() - i,
    {
        parameters.push(def.parameters[i].encode());
        i += 1;
    }
    assert(texts(parameters@) =~= encoded_parameters(def@.parameters));
    CodeItem {
        item_type,
        name: def.name.clone(),
        line_number: def.first_line,
        end_line: def.last_line,
        code: text_of(&code),
        existing_docstring: existing,
        parent,
        parameters,
        returns: copy_text_option(&def.returns),
        indentation: indent,
    }
}

/// Adds the items for the methods of `owner` to `items`.
pub fn push_method_items(
    items: &mut Vec<CodeItem>,
    convention: DocConvention,
    lines: &Vec<Vec<char>>,
    owner: &String,
    methods: &Vec<Definition>,
)
    ensures
        item_views(final(items)@) == item_views(old(items)@) + method_items(
            convention,
            rows(lines@),
            owner@,
            definition_views(methods@),
        ),
{
    let ghost first = item_views(items@);
    let ghost added = method_items(convention, rows(lines@), owner@, definition_views(methods@));
    let mut i: usize = 0;
    assert(first + added.take(0) =~= first);
    while i < methods.len()
        invariant
            i <= methods.len(),
            added == method_items(convention, rows(lines@), owner@, definition_views(methods@)),
            item_views(items@) == first + added.take(i as int),
        decreases methods.len() - i,
    {
        let ghost before = item_views(items@);
        let item = make_item(convention, lines, &methods[i], ItemType::Method, Some(owner.clone()));
        assert(item@ == added[i as int]);
        items.push(item);
        assert(item_views(items@) =~= before.push(added[i as int]));
        assert(first + added.take(i + 1) =~= (first + added.take(i as int)).push(added[i as int]));
        i += 1;
    }
    assert(added.take(methods.len() as int) =~= added);
}

/// The items of `content`, in which a grammar found `declarations`.
pub fn collect_items(convention: DocConvention, content: &str, declarations: &Vec<Declaration>) -> (r:
    ParsedCode)
    ensures
        r@.original_content == content@,
        r@.items == items_of(convention, lines_of(content@), declaration_views(declarations@)),
{
    let lines = split_lines(&chars_of(content));
    let ghost all = rows(lines@);
    let ghost decls = declaration_views(declarations@);
    let mut items: Vec<CodeItem> = Vec::new();
    let mut i: usize = 0;
    assert(decls.take(0) =~= Seq::<DeclarationView>::empty());
    assert(item_views(items@) =~= items_of(convention, all, decls.take(0)));
    while i < declarations.len()
        invariant
            i <= declarations.len(),
            all == rows(lines@),
            decls == declaration_views(declarations@),
            item_views(items@) == items_of(convention, all, decls.take(i as int)),
        decreases declarations.len() - i,
    {
        let ghost before = item_views(items@);
        assert(decls.take(i + 1).drop_last() =~= decls.take(i as int));
        assert(decls.take(i + 1).last() == declarations@[i as int]@);
        match &declarations[i] {
            Declaration::Function(d) => {
                let item = make_item(convention, &lines, d, ItemType::Function, None);
                items.push(item);
                assert(item_views(items@) =~= before + seq![item@]);
            },
            Declaration::Class(c, methods) => {
                let item = make_item(convention, &lines, c, ItemType::Class, None);
                items.push(item);
                assert(item_views(items@) =~= before + seq![item@]);
                push_method_items(&mut items, convention, &lines, &c.name, methods);
                assert(item_views(items@) =~= before + (seq![item@] + method_items(
                    convention,
                    all,
                    c.name@,
                    definition_views(methods@),
                )));
            },
            Declaration::Methods(owner, methods) => {
                push_method_items(&mut items, convention, &lines, owner, methods);
            },
        }
        i += 1;
    }
    assert(decls.take(declarations.len() as int) =~= decls);
    ParsedCode { items, original_content: String::from_str(content) }
}

/// Whether a definition lies on lines of a text of `n` lines: it
/// starts on one of them and does not end before it starts.
pub open spec fn definition_within(d: DefinitionView, n: nat) -> bool {
    1 <= d.first_line <= d.last_line <= n
}

/// Whether what a declaration defines lies on lines of a text of `n`
/// lines.
pub open spec fn declaration_within(d: DeclarationView, n: nat) -> bool {
    match d {
        DeclarationView::Function(f) => definition_within(f, n),
        DeclarationView::Class(c, methods) => definition_within(c, n) && forall|i: int|
            0 <= i < methods.len() ==> definition_within(#[trigger] methods[i], n),
        DeclarationView::Methods(_, methods) => forall|i: int|
            0 <= i < methods.len() ==> definition_within(#[trigger] methods[i], n),
    }
}

/// Whether every item lies on lines of a text of `n` lines.
pub open spec fn items_on_lines(items: Seq<CodeItemView>, n: nat) -> bool {
    forall|k: int|
        0 <= k < items.len() ==> 1 <= (#[trigger] items[k]).line_number <= items[k].end_line <= n
}

/// The items of declarations that lie on lines of a text lie on those
/// lines.
pub proof fn lemma_items_on_lines(
    convention: DocConvention,
    lines: Seq<Seq<char>>,
    declarations: Seq<DeclarationView>,
    n: nat,
)
    requires
        forall|i: int|
            0 <= i < declarations.len() ==> declaration_within(#[trigger] declarations[i], n),
    ensures
        items_on_lines(items_of(convention, lines, declarations), n),
    decreases declarations.len(),
{
    if declarations.len() > 0 {
        let front = declarations.drop_last();
        assert forall|i: int| 0 <= i < front.len() implies declaration_within(
            #[trigger] front[i],
            n,
        ) by {
            assert(front[i] == declarations[i]);
        }
        lemma_items_on_lines(convention, lines, front, n);
        let before = items_of(convention, lines, front);
        let last = declarations.last();
        assert(declaration_within(declarations[declarations.len() - 1], n));
        let added = declaration_items(convention, lines, last);
        let all = before + added;
        assert forall|k: int| 0 <= k < all.len() implies 1 <= (#[trigger] all[k]).line_number
            <= all[k].end_line <= n by {
            if k < before.len() {
                assert(all[k] == before[k]);
            } else {
                let j = k - before.len();
                assert(all[k] == added[j]);
                match last {
                    DeclarationView::Function(f) => {},
                    DeclarationView::Class(c, methods) => {
                        if j > 0 {
                            assert(definition_within(methods[j - 1], n));
                        }
                    },
                    DeclarationView::Methods(_, methods) => {
                        assert(definition_within(methods[j], n));
                    },
                }
            }
        }
    }
}

} // verus!
