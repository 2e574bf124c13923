//! Python, read with the grammar of the `rustpython_parser` crate.
//!
//! The grammar reports the statements of a module. What the library
//! reads of a statement (its kind, name, extent, signature and the
//! string literal that opens its body) is taken out through small
//! accessors. What the grammar makes of a text, and what a statement
//! holds, only have names: all that is claimed is that the same text
//! gives the same statements. What the library makes of them is stated
//! over those names.

use super::LanguageParser;
use crate::docstring::{update_views, UpdatedDocstring, UpdatedDocstringView};
use crate::error::{DocGenError, DocGenResult};
use crate::extract::{
    collect_items, declaration_views, declaration_within, definition_views, definition_within,
    items_of, items_on_lines, lemma_items_on_lines, parameter_views, Declaration,
    DeclarationView, Definition, DefinitionView, Parameter, ParameterForm, ParameterView,
};
use crate::line_bounds::{lemma_line_of_later_byte, lemma_line_within};
use crate::lines::lines_of;
use crate::parser::{item_views, text_option, CodeItemView, ParsedCode};
use crate::rewrite::{rewrite, rewritten, DocConvention};
use crate::text::{
    between_bytes, chars_of, cut, line_at_offset, line_of_offset, shorter_than,
    text_of, utf8_len,
};
use rustpython_parser::ast::{ArgWithDefault, Constant, Expr, Ranged, Stmt};
use rustpython_parser::Parse;
use vstd::prelude::*;

verus! {

/// `rustpython_parser::ast::Stmt`, a statement of a syntax tree. Opaque
/// to the library.
#[verifier::external_type_specification]
#[verifier::external_body]
#[verifier::reject_recursive_types(R)]
pub struct ExStmt<R>(rustpython_parser::ast::Stmt<R>);

/// `rustpython_parser::text_size::TextRange`, the extent that the
/// grammar records for a statement. Opaque to the library.
#[verifier::external_type_specification]
#[verifier::external_body]
pub struct ExTextRange(rustpython_parser::text_size::TextRange);

/// What kind of statement the grammar found.
#[derive(Clone, Copy, Debug, PartialEq, Eq, Structural)]
pub enum StatementKind {
    Function,
    Class,
    Other,
}

/// One declared argument of a Python function: its name, and whether
/// it has a default value.
#[derive(Debug)]
pub struct Argument {
    pub name: String,
    pub has_default: bool,
}

/// The mathematical value of an [`Argument`].
pub struct ArgumentView {
    pub name: Seq<char>,
    pub has_default: bool,
}

impl View for Argument {
    type V = ArgumentView;

    open spec fn view(&self) -> ArgumentView {
        ArgumentView { name: self.name@, has_default: self.has_default }
    }
}

/// The values of a sequence of arguments.
pub open spec fn argument_views(v: Seq<Argument>) -> Seq<ArgumentView> {
    Seq::new(v.len(), |i: int| v[i]@)
}

/// The arguments of a Python function, by group.
#[derive(Debug)]
pub struct Signature {
    /// Those before a `/`.
    pub positional_only: Vec<Argument>,
    /// Those that can be given by position or by keyword.
    pub positional: Vec<Argument>,
    /// The name behind `*`, if any.
    pub variadic: Option<String>,
    /// Those after `*` or `*name`.
    pub keyword_only: Vec<Argument>,
    /// The name behind `**`, if any.
    pub keyword_variadic: Option<String>,
}

/// The mathematical value of a [`Signature`].
pub struct SignatureView {
    pub positional_only: Seq<ArgumentView>,
    pub positional: Seq<ArgumentView>,
    pub variadic: Option<Seq<char>>,
    pub keyword_only: Seq<ArgumentView>,
    pub keyword_variadic: Option<Seq<char>>,
}

impl View for Signature {
    type V = SignatureView;

    open spec fn view(&self) -> SignatureView {
        SignatureView {
            positional_only: argument_views(self.positional_only@),
            positional: argument_views(self.positional@),
            variadic: text_option(self.variadic),
            keyword_only: argument_views(self.keyword_only@),
            keyword_variadic: text_option(self.keyword_variadic),
        }
    }
}

/// The parameter for a named argument.
pub open spec fn parameter_of(a: ArgumentView) -> ParameterView {
    ParameterView {
        name: a.name,
        form: if a.has_default {
            ParameterForm::WithDefault
        } else {
            ParameterForm::Plain
        },
    }
}

/// The parameters for the arguments, in order.
pub open spec fn all_parameters(args: Seq<ArgumentView>) -> Seq<ParameterView> {
    Seq::new(args.len(), |i: int| parameter_of(args[i]))
}

/// The parameter for an optional name, in the given form.
pub open spec fn optional_parameter(name: Option<Seq<char>>, form: ParameterForm) -> Seq<
    ParameterView,
> {
    match name {
        Some(n) => seq![ParameterView { name: n, form }],
        None => Seq::empty(),
    }
}

/// The parameters of a signature, in the order in which Python has
/// them declared: the positional-only arguments, the positional ones,
/// the variadic one, the keyword-only ones and the keyword-variadic
/// one. The receiver of a method is among them.
pub open spec fn signature_parameters(s: SignatureView) -> Seq<ParameterView> {
    all_parameters(s.positional_only) + all_parameters(s.positional) + optional_parameter(
        s.variadic,
        ParameterForm::Variadic,
    ) + all_parameters(s.keyword_only) + optional_parameter(
        s.keyword_variadic,
        ParameterForm::KeywordVariadic,
    )
}

/// Adds the parameters for the arguments to `out`.
fn push_parameters(out: &mut Vec<Parameter>, args: &Vec<Argument>)
    ensures
        parameter_views(final(out)@) == parameter_views(old(out)@) + all_parameters(
            argument_views(args@),
        ),
{
    let ghost first = parameter_views(out@);
    let ghost wanted = all_parameters(argument_views(args@));
    let mut i: usize = 0;
    assert(first + wanted.take(0) =~= first);
    while i < args.len()
        invariant
            i <= args.len(),
            wanted == all_parameters(argument_views(args@)),
            parameter_views(out@) == first + wanted.take(i as int),
        decreases args.len() - i,
    {
        let ghost before = parameter_views(out@);
        let parameter = Parameter {
            name: args[i].name.clone(),
            form: if args[i].has_default {
                ParameterForm::WithDefault
            } else {
                ParameterForm::Plain
            },
        };
        assert(parameter@ == wanted[i as int]);
        out.push(parameter);
        assert(parameter_views(out@) =~= before.push(wanted[i as int]));
        assert(first + wanted.take(i + 1) =~= (first + wanted.take(i as int)).push(
            wanted[i as int],
        ));
        i += 1;
    }
    assert(wanted.take(args.len() as int) =~= wanted);
}

/// Adds the parameter for an optional name to `out`.
fn push_optional(out: &mut Vec<Parameter>, name: &Option<String>, form: ParameterForm)
    ensures
        parameter_views(final(out)@) == parameter_views(old(out)@) + optional_parameter(
            text_option(*name),
            form,
        ),
{
    let ghost first = parameter_views(out@);
    match name {
        Some(n) => {
            let parameter = Parameter { name: n.clone(), form };
            out.push(parameter);
            assert(parameter_views(out@) =~= first + seq![parameter@]);
        },
        None => {
            assert(parameter_views(out@) =~= first + Seq::<ParameterView>::empty());
        },
    }
}

/// The parameters of a signature.
pub fn parameters_of(signature: &Signature) -> (r: Vec<Parameter>)
    ensures
        parameter_views(r@) == signature_parameters(signature@),
{
    let mut out: Vec<Parameter> = Vec::new();
    assert(parameter_views(out@) =~= Seq::<ParameterView>::empty());
    push_parameters(&mut out, &signature.positional_only);
    push_parameters(&mut out, &signature.positional);
    push_optional(&mut out, &signature.variadic, ParameterForm::Variadic);
    push_parameters(&mut out, &signature.keyword_only);
    push_optional(&mut out, &signature.keyword_variadic, ParameterForm::KeywordVariadic);
    assert(parameter_views(out@) =~= signature_parameters(signature@));
    out
}

/// What a statement of a syntax tree holds of what the library reads.
pub struct StatementView {
    /// Whether the statement defines a function, a class, or something
    /// else.
    pub kind: StatementKind,
    /// The name that a function or class statement introduces; empty
    /// for any other statement.
    pub name: Seq<char>,
    /// The byte offset at which the statement starts.
    pub start: usize,
    /// The byte offset behind the end of the statement.
    pub end: usize,
    /// The arguments of a function statement.
    pub signature: Option<SignatureView>,
    /// The byte at which the return annotation of a function statement
    /// starts, and the byte behind its end.
    pub annotation: Option<(usize, usize)>,
    /// The string, where the statement is an expression that is a
    /// string constant.
    pub literal: Option<Seq<char>>,
    /// The statements of the body of a function or class statement.
    pub body: Seq<StatementView>,
}

/// The name for what a statement of the outside syntax tree holds. The
/// accessors below say of each part that it is the part of this value.
pub uninterp spec fn statement_view(stmt: Stmt) -> StatementView;

/// The name for what `Suite::parse` of `rustpython_parser` makes of a
/// text: the statements of the module, or the parser's words on why the
/// text is no module.
pub uninterp spec fn python_module(content: Seq<char>) -> Result<Seq<StatementView>, Seq<char>>;

/// The number of bytes below which the grammar takes a text: it counts
/// bytes in 32 bits.
pub const MAX_TEXT_BYTES: usize = 0xFFFF_FFFF;

/// The words with which a text is refused that is too long for the
/// grammar.
pub open spec fn too_long() -> Seq<char> {
    "the text is too long for the Python grammar"@
}

/// What reading a text as Python gives: what the grammar makes of it,
/// or a refusal where the text is too long for the grammar.
pub open spec fn python_reading(content: Seq<char>) -> Result<Seq<StatementView>, Seq<char>> {
    if utf8_len(content) < MAX_TEXT_BYTES {
        python_module(content)
    } else {
        Err(too_long())
    }
}

/// What the statements hold.
pub open spec fn statement_views(statements: Seq<Stmt>) -> Seq<StatementView> {
    Seq::new(statements.len(), |i: int| statement_view(statements[i]))
}

/// Whether a statement takes bytes of a text of `n` bytes: at least
/// one, and none behind the end of the text.
pub open spec fn spans_text(s: StatementView, n: nat) -> bool {
    s.start < s.end <= n
}

/// Whether each of the statements takes bytes of the statement `s`.
pub open spec fn inside(body: Seq<StatementView>, s: StatementView) -> bool {
    forall|i: int|
        0 <= i < body.len() ==> s.start <= (#[trigger] body[i]).start && body[i].start
            < body[i].end <= s.end
}

/// Whether the statements of the body of a statement take bytes of the
/// statement.
pub open spec fn holds_body(s: StatementView) -> bool {
    inside(s.body, s)
}

/// Whether the statements of a module lie in a text of `n` bytes: each
/// takes bytes of the text, and the statements of the body of a class
/// take bytes of the class.
pub open spec fn well_placed(statements: Seq<StatementView>, n: nat) -> bool {
    forall|i: int|
        0 <= i < statements.len() ==> spans_text(#[trigger] statements[i], n) && (statements[i].kind
            == StatementKind::Class ==> holds_body(statements[i]))
}

/// The string literal that opens a body: that of its first statement.
pub open spec fn leading_literal(body: Seq<StatementView>) -> Option<Seq<char>> {
    if body.len() > 0 {
        body[0].literal
    } else {
        None
    }
}

/// What a function statement of the text `source` defines: it starts
/// on the line of its first byte and ends on the line of its last; its
/// parameters are those of its signature, its return annotation is the
/// text at the bytes of the annotation, and its documentation is the
/// string literal that opens its body.
pub open spec fn function_view(source: Seq<char>, s: StatementView) -> DefinitionView {
    DefinitionView {
        name: s.name,
        first_line: line_holding(source, s.start as nat),
        last_line: line_holding(source, last_byte(s.end)),
        parameters: match s.signature {
            Some(signature) => signature_parameters(signature),
            None => Seq::empty(),
        },
        returns: match s.annotation {
            Some((start, end)) => Some(between_bytes(source, start as nat, end as nat)),
            None => None,
        },
        inline_doc: leading_literal(s.body),
    }
}

/// What a class statement of the text `source` defines: like a
/// function, without parameters and return annotation.
pub open spec fn class_view(source: Seq<char>, s: StatementView) -> DefinitionView {
    DefinitionView {
        name: s.name,
        first_line: line_holding(source, s.start as nat),
        last_line: line_holding(source, last_byte(s.end)),
        parameters: Seq::empty(),
        returns: None,
        inline_doc: leading_literal(s.body),
    }
}

/// The methods of a class body: the function statements among its
/// statements, in order.
pub open spec fn methods_view(source: Seq<char>, body: Seq<StatementView>) -> Seq<DefinitionView>
    decreases body.len(),
{
    if body.len() == 0 {
        Seq::empty()
    } else if body.last().kind == StatementKind::Function {
        methods_view(source, body.drop_last()).push(function_view(source, body.last()))
    } else {
        methods_view(source, body.drop_last())
    }
}

/// The declarations of a module: its function statements and its class
/// statements, in order, each class with the methods of its body. Other
/// statements, and what is nested deeper, are left out.
pub open spec fn module_declarations(source: Seq<char>, statements: Seq<StatementView>) -> Seq<
    DeclarationView,
>
    decreases statements.len(),
{
    if statements.len() == 0 {
        Seq::empty()
    } else {
        let before = module_declarations(source, statements.drop_last());
        let s = statements.last();
        match s.kind {
            StatementKind::Function => before.push(
                DeclarationView::Function(function_view(source, s)),
            ),
            StatementKind::Class => before.push(
                DeclarationView::Class(class_view(source, s), methods_view(source, s.body)),
            ),
            StatementKind::Other => before,
        }
    }
}

/// The items of a Python text whose module has the given statements.
pub open spec fn python_items(content: Seq<char>, statements: Seq<StatementView>) -> Seq<
    CodeItemView,
> {
    items_of(
        DocConvention::InlineLiteral,
        lines_of(content),
        module_declarations(content, statements),
    )
}

/// `Suite::parse` of `rustpython_parser`: the statements of a module,
/// or the parser's description of why the text is no module. The
/// parser counts bytes in 32 bits, so the text must be shorter than
/// that. The contract gives the result its name: the same text gives
/// the same result. It also says that each statement takes at least
/// one byte of the text and none behind its end: the ranges of the
/// statements are ranges of the text.
#[verifier::external_body]
fn parse_module(content: &str) -> (r: Result<Vec<Stmt>, String>)
    requires
        utf8_len(content@) < MAX_TEXT_BYTES,
    ensures
        match r {
            Ok(statements) => python_module(content@) == Ok::<Seq<StatementView>, Seq<char>>(
                statement_views(statements@),
            ),
            Err(reason) => python_module(content@) == Err::<Seq<StatementView>, Seq<char>>(
                reason@,
            ),
        },
        r matches Ok(statements) ==> forall|i: int|
            0 <= i < statements@.len() ==> spans_text(
                #[trigger] statement_view(statements@[i]),
                utf8_len(content@),
            ),
{
    rustpython_parser::ast::Suite::parse(content, "<string>").map_err(|e| e.to_string())
}

/// Whether a statement defines a function, a class, or something else:
/// the `kind` of what the statement holds.
#[verifier::external_body]
fn statement_kind(stmt: &Stmt) -> (r: StatementKind)
    ensures
        r == statement_view(*stmt).kind,
{
    match stmt {
        Stmt::FunctionDef(_) => StatementKind::Function,
        Stmt::ClassDef(_) => StatementKind::Class,
        _ => StatementKind::Other,
    }
}

/// The name that a function or class statement introduces; empty for
/// any other statement: the `name` of what the statement holds.
#[verifier::external_body]
fn statement_name(stmt: &Stmt) -> (r: String)
    ensures
        r@ == statement_view(*stmt).name,
{
    match stmt {
        Stmt::FunctionDef(f) => f.name.to_string(),
        Stmt::ClassDef(c) => c.name.to_string(),
        _ => String::new(),
    }
}

/// `Ranged::range` of a statement: the byte offset at which it starts
/// and the byte offset behind its end, the `start` and `end` of what
/// the statement holds.
#[verifier::external_body]
fn statement_extent(stmt: &Stmt) -> (r: (usize, usize))
    ensures
        r.0 == statement_view(*stmt).start,
        r.1 == statement_view(*stmt).end,
{
    let range = stmt.range();
    (range.start().to_usize(), range.end().to_usize())
}

/// The statements in the body of a function or class statement; none
/// for any other statement: the `body` of what the statement holds.
/// Each of them takes bytes of the statement: a body lies inside its
/// statement.
#[verifier::external_body]
fn statement_body(stmt: &Stmt) -> (r: &[Stmt])
    ensures
        statement_views(r@) == statement_view(*stmt).body,
        inside(statement_views(r@), statement_view(*stmt)),
{
    match stmt {
        Stmt::FunctionDef(f) => &f.body,
        Stmt::ClassDef(c) => &c.body,
        _ => &[],
    }
}

/// The string of a statement that is an expression that is a string
/// constant: the `literal` of what the statement holds.
#[verifier::external_body]
fn statement_literal(stmt: &Stmt) -> (r: Option<String>)
    ensures
        text_option(r) == statement_view(*stmt).literal,
{
    match stmt {
        Stmt::Expr(e) => match e.value.as_ref() {
            Expr::Constant(c) => match &c.value {
                Constant::Str(s) => Some(s.clone()),
                _ => None,
            },
            _ => None,
        },
        _ => None,
    }
}

/// The string literal that opens a body: the string of its first
/// statement, where that is a string constant.
fn leading_string(body: &[Stmt]) -> (r: Option<String>)
    ensures
        text_option(r) == leading_literal(statement_views(body@)),
{
    if body.len() > 0 {
        statement_literal(&body[0])
    } else {
        None
    }
}

/// The arguments that a function statement declares, by group, each
/// with its name and whether it has a default value; `None` for any
/// other statement: the `signature` of what the statement holds.
#[verifier::external_body]
fn statement_signature(stmt: &Stmt) -> (r: Option<Signature>)
    ensures
        match r {
            Some(signature) => statement_view(*stmt).signature == Some(signature@),
            None => statement_view(*stmt).signature is None,
        },
{
    let named = |a: &ArgWithDefault| Argument {
        name: a.def.arg.to_string(),
        has_default: a.default.is_some(),
    };
    match stmt {
        Stmt::FunctionDef(f) => Some(Signature {
            positional_only: f.args.posonlyargs.iter().map(named).collect(),
            positional: f.args.args.iter().map(named).collect(),
            variadic: f.args.vararg.as_ref().map(|a| a.arg.to_string()),
            keyword_only: f.args.kwonlyargs.iter().map(named).collect(),
            keyword_variadic: f.args.kwarg.as_ref().map(|a| a.arg.to_string()),
        }),
        _ => None,
    }
}

/// `Ranged::range` of the return annotation of a function statement:
/// the byte at which it starts and the byte behind its end, the
/// `annotation` of what the statement holds.
#[verifier::external_body]
fn return_annotation(stmt: &Stmt) -> (r: Option<(usize, usize)>)
    ensures
        r == statement_view(*stmt).annotation,
{
    match stmt {
        Stmt::FunctionDef(f) => f.returns.as_ref().map(
            |e| (e.range().start().to_usize(), e.range().end().to_usize()),
        ),
        _ => None,
    }
}

/// The line, counted from 1, that holds byte `offset` of `source`; the
/// largest number there is if the line number is larger.
pub open spec fn line_holding(source: Seq<char>, offset: nat) -> nat {
    if line_of_offset(source, offset) <= usize::MAX {
        line_of_offset(source, offset)
    } else {
        usize::MAX as nat
    }
}

/// The byte offset of the last byte of a statement that ends before
/// byte `end`.
pub open spec fn last_byte(end: usize) -> nat {
    if end > 0 {
        (end - 1) as nat
    } else {
        0
    }
}

/// What the grammar reports of a definition that takes the bytes from
/// `start` up to `end` of `source`: it starts on the line of its first
/// byte and ends on the line of its last.
pub fn definition_between(
    source: &Vec<char>,
    name: String,
    start: usize,
    end: usize,
    parameters: Vec<Parameter>,
    annotation: Option<String>,
    literal: Option<String>,
) -> (r: Definition)
    ensures
        r@ == (DefinitionView {
            name: name@,
            first_line: line_holding(source@, start as nat),
            last_line: line_holding(source@, last_byte(end)),
            parameters: parameter_views(parameters@),
            returns: text_option(annotation),
            inline_doc: text_option(literal),
        }),
{
    Definition {
        name,
        first_line: line_at_offset(source, start),
        last_line: line_at_offset(
            source,
            if end > 0 {
                end - 1
            } else {
                0
            },
        ),
        parameters,
        returns: annotation,
        inline_doc: literal,
    }
}

/// What the grammar reports of a function statement of the text whose
/// characters are `source`.
fn function_definition(source: &Vec<char>, stmt: &Stmt) -> (r: Definition)
    ensures
        r@ == function_view(source@, statement_view(*stmt)),
{
    let (start, end) = statement_extent(stmt);
    let parameters: Vec<Parameter> = match statement_signature(stmt) {
        Some(signature) => parameters_of(&signature),
        None => Vec::new(),
    };
    assert(statement_view(*stmt).signature is None ==> parameter_views(parameters@)
        =~= Seq::<ParameterView>::empty());
    let annotation: Option<String> = match return_annotation(stmt) {
        Some((from, to)) => Some(text_of(&cut(source, from, to))),
        None => None,
    };
    definition_between(
        source,
        statement_name(stmt),
        start,
        end,
        parameters,
        annotation,
        leading_string(statement_body(stmt)),
    )
}

/// What the grammar reports of a class statement of the text whose
/// characters are `source`.
fn class_definition(source: &Vec<char>, stmt: &Stmt) -> (r: Definition)
    ensures
        r@ == class_view(source@, statement_view(*stmt)),
{
    let (start, end) = statement_extent(stmt);
    let parameters: Vec<Parameter> = Vec::new();
    assert(parameter_views(parameters@) =~= Seq::<ParameterView>::empty());
    definition_between(
        source,
        statement_name(stmt),
        start,
        end,
        parameters,
        None,
        leading_string(statement_body(stmt)),
    )
}

/// The functions among the statements of a class body.
fn methods_of(source: &Vec<char>, body: &[Stmt]) -> (r: Vec<Definition>)
    ensures
        definition_views(r@) == methods_view(source@, statement_views(body@)),
{
    let ghost all = statement_views(body@);
    let mut methods: Vec<Definition> = Vec::new();
    let mut i: usize = 0;
    assert(all.take(0) =~= Seq::<StatementView>::empty());
    assert(definition_views(methods@) =~= methods_view(source@, all.take(0)));
    while i < body.len()
        invariant
            i <= body.len(),
            all == statement_views(body@),
            definition_views(methods@) == methods_view(source@, all.take(i as int)),
        decreases body.len() - i,
    {
        let ghost before = definition_views(methods@);
        assert(all.take(i + 1).drop_last() =~= all.take(i as int));
        assert(all.take(i + 1).last() == statement_view(body@[i as int]));
        if statement_kind(&body[i]) == StatementKind::Function {
            let method = function_definition(source, &body[i]);
            methods.push(method);
            assert(definition_views(methods@) =~= before.push(method@));
        }
        i += 1;
    }
    assert(all.take(body.len() as int) =~= all);
    methods
}

/// What a function or class statement that takes bytes of a text
/// defines lies on lines of the text.
pub proof fn lemma_definition_within(source: Seq<char>, s: StatementView)
    requires
        spans_text(s, utf8_len(source)),
    ensures
        definition_within(function_view(source, s), lines_of(source).len()),
        definition_within(class_view(source, s), lines_of(source).len()),
{
    lemma_line_within(source, s.start as nat);
    lemma_line_within(source, last_byte(s.end));
    lemma_line_of_later_byte(source, s.start as nat, last_byte(s.end));
}

/// The methods of a body whose statements take bytes of a text lie on
/// lines of the text.
pub proof fn lemma_methods_within(source: Seq<char>, body: Seq<StatementView>)
    requires
        forall|i: int| 0 <= i < body.len() ==> spans_text(#[trigger] body[i], utf8_len(source)),
    ensures
        forall|k: int|
            0 <= k < methods_view(source, body).len() ==> definition_within(
                #[trigger] methods_view(source, body)[k],
                lines_of(source).len(),
            ),
    decreases body.len(),
{
    if body.len() > 0 {
        let front = body.drop_last();
        assert forall|i: int| 0 <= i < front.len() implies spans_text(
            #[trigger] front[i],
            utf8_len(source),
        ) by {
            assert(front[i] == body[i]);
        }
        lemma_methods_within(source, front);
        assert(spans_text(body[body.len() - 1], utf8_len(source)));
        lemma_definition_within(source, body.last());
        let before = methods_view(source, front);
        let all = methods_view(source, body);
        assert forall|k: int| 0 <= k < all.len() implies definition_within(
            #[trigger] all[k],
            lines_of(source).len(),
        ) by {
            if k < before.len() {
                assert(all[k] == before[k]);
            }
        }
    }
}

/// The declarations of a module whose statements lie in a text lie on
/// lines of the text.
pub proof fn lemma_declarations_within(source: Seq<char>, statements: Seq<StatementView>)
    requires
        well_placed(statements, utf8_len(source)),
    ensures
        forall|k: int|
            0 <= k < module_declarations(source, statements).len() ==> declaration_within(
                #[trigger] module_declarations(source, statements)[k],
                lines_of(source).len(),
            ),
    decreases statements.len(),
{
    if statements.len() > 0 {
        let front = statements.drop_last();
        let s = statements.last();
        assert forall|i: int| 0 <= i < front.len() implies spans_text(
            #[trigger] front[i],
            utf8_len(source),
        ) && (front[i].kind == StatementKind::Class ==> holds_body(front[i])) by {
            assert(front[i] == statements[i]);
        }
        lemma_declarations_within(source, front);
        assert(spans_text(statements[statements.len() - 1], utf8_len(source)));
        lemma_definition_within(source, s);
        if s.kind == StatementKind::Class {
            assert forall|i: int| 0 <= i < s.body.len() implies spans_text(
                #[trigger] s.body[i],
                utf8_len(source),
            ) by {}
            lemma_methods_within(source, s.body);
        }
        let before = module_declarations(source, front);
        let all = module_declarations(source, statements);
        assert forall|k: int| 0 <= k < all.len() implies declaration_within(
            #[trigger] all[k],
            lines_of(source).len(),
        ) by {
            if k < before.len() {
                assert(all[k] == before[k]);
            }
        }
    }
}

/// Every item of a Python text whose statements lie in the text lies on
/// lines of the text.
pub proof fn lemma_python_items_on_lines(content: Seq<char>, statements: Seq<StatementView>)
    requires
        well_placed(statements, utf8_len(content)),
    ensures
        items_on_lines(python_items(content, statements), lines_of(content).len()),
{
    lemma_declarations_within(content, statements);
    lemma_items_on_lines(
        DocConvention::InlineLiteral,
        lines_of(content),
        module_declarations(content, statements),
        lines_of(content).len(),
    );
}

/// Whether `r` is what parsing `content` as Python gives: the items of
/// what the grammar made of it, each on lines of the text, or a parsing
/// error with the words of the refusal.
pub open spec fn python_parsed(content: Seq<char>, r: DocGenResult<ParsedCode>) -> bool {
    match python_reading(content) {
        Ok(statements) => r matches Ok(parsed) && parsed@.original_content == content
            && parsed@.items == python_items(content, statements) && items_on_lines(
            parsed@.items,
            lines_of(content).len(),
        ),
        Err(reason) => r matches Err(DocGenError::ParsingError(words)) && words@ == reason,
    }
}

/// Whether `r` is what rewriting `content` as Python gives: a parsing
/// error where the text is refused, else the text that `rewritten`
/// tells for the items of the text, or an update error where it tells
/// none.
pub open spec fn python_updated(
    content: Seq<char>,
    updates: Seq<UpdatedDocstringView>,
    r: DocGenResult<String>,
) -> bool {
    match python_reading(content) {
        Ok(statements) => match rewritten(
            DocConvention::InlineLiteral,
            content,
            python_items(content, statements),
            updates,
        ) {
            Some(text) => r matches Ok(s) && s@ == text,
            None => r matches Err(DocGenError::UpdateError(_)),
        },
        Err(reason) => r matches Err(DocGenError::ParsingError(words)) && words@ == reason,
    }
}

/// Python source text.
pub struct PythonParser;

impl PythonParser {
    pub fn new() -> (r: Self) {
        PythonParser
    }

    /// The functions and classes at the top level of `content`, each
    /// class with the functions of its body, as the grammar reports
    /// them; `Err` with the grammar's words if `content` is no Python
    /// module.
    pub fn declarations(&self, content: &str) -> (r: DocGenResult<Vec<Declaration>>)
        ensures
            match python_reading(content@) {
                Ok(statements) => r matches Ok(found) && declaration_views(found@)
                    == module_declarations(content@, statements) && well_placed(
                    statements,
                    utf8_len(content@),
                ),
                Err(reason) => r matches Err(DocGenError::ParsingError(words)) && words@
                    == reason,
            },
    {
        let source = chars_of(content);
        if !shorter_than(&source, MAX_TEXT_BYTES) {
            return Err(
                DocGenError::ParsingError(
                    String::from_str("the text is too long for the Python grammar"),
                ),
            );
        }
        let statements = match parse_module(content) {
            Ok(statements) => statements,
            Err(reason) => {
                return Err(DocGenError::ParsingError(reason));
            },
        };
        let ghost all = statement_views(statements@);
        let mut declarations: Vec<Declaration> = Vec::new();
        let mut i: usize = 0;
        assert(all.take(0) =~= Seq::<StatementView>::empty());
        assert(declaration_views(declarations@) =~= module_declarations(content@, all.take(0)));
        while i < statements.len()
            invariant
                i <= statements.len(),
                source@ == content@,
                all == statement_views(statements@),
                declaration_views(declarations@) == module_declarations(
                    content@,
                    all.take(i as int),
                ),
                forall|j: int|
                    0 <= j < i ==> ((#[trigger] all[j]).kind == StatementKind::Class
                        ==> holds_body(all[j])),
            decreases statements.len() - i,
        {
            let stmt = &statements[i];
            let ghost before = declaration_views(declarations@);
            assert(all.take(i + 1).drop_last() =~= all.take(i as int));
            assert(all.take(i + 1).last() == statement_view(*stmt));
            match statement_kind(stmt) {
                StatementKind::Function => {
                    let found = Declaration::Function(function_definition(&source, stmt));
                    declarations.push(found);
                    assert(declaration_views(declarations@) =~= before.push(found@));
                },
                StatementKind::Class => {
                    let found = Declaration::Class(
                        class_definition(&source, stmt),
                        methods_of(&source, statement_body(stmt)),
                    );
                    declarations.push(found);
                    assert(declaration_views(declarations@) =~= before.push(found@));
                },
                StatementKind::Other => {},
            }
            i += 1;
        }
        assert(all.take(statements.len() as int) =~= all);
        assert forall|j: int| 0 <= j < all.len() implies spans_text(
            #[trigger] all[j],
            utf8_len(content@),
        ) by {
            assert(all[j] == statement_view(statements@[j]));
        }
        Ok(declarations)
    }
}

impl LanguageParser for PythonParser {
    open spec fn convention(&self) -> DocConvention {
        DocConvention::InlineLiteral
    }

    /// The items of `content`: those of the functions and classes that
    /// the grammar reports. A definition is documented by the string
    /// literal that opens its body, or without one by the `#` lines
    /// above it.
    fn parse(&self, content: &str) -> (r: DocGenResult<ParsedCode>)
        ensures
            python_parsed(content@, r),
    {
        match self.declarations(content) {
            Ok(declarations) => {
                let parsed = collect_items(DocConvention::InlineLiteral, content, &declarations);
                assert(parsed@.items == items_of(
                    self.convention(),
                    lines_of(content@),
                    declaration_views(declarations@),
                ));
                proof {
                    lemma_python_items_on_lines(content@, python_reading(content@)->Ok_0);
                }
                Ok(parsed)
            },
            Err(e) => Err(e),
        }
    }

    /// Rewrites `content` with the updates resolved against its own
    /// items: the documentation goes behind the first line of each
    /// definition, one level deeper, as a string literal in three
    /// double quotes, in place of the literal that stands there.
    fn update_content(&self, content: &str, updated_docstrings: &[UpdatedDocstring]) -> (r:
        DocGenResult<String>)
        ensures
            python_updated(content@, update_views(updated_docstrings@), r),
    {
        let parsed = match self.parse(content) {
            Ok(parsed) => parsed,
            Err(e) => {
                return Err(e);
            },
        };
        let r = rewrite(DocConvention::InlineLiteral, content, &parsed.items, updated_docstrings);
        proof {
            if r is Ok {
                assert(rewritten(
                    self.convention(),
                    content@,
                    item_views(parsed.items@),
                    update_views(updated_docstrings@),
                ) == Some(r->Ok_0@));
            } else {
                assert(rewritten(
                    self.convention(),
                    content@,
                    item_views(parsed.items@),
                    update_views(updated_docstrings@),
                ) is None);
            }
        }
        r
    }
}

} // verus!
