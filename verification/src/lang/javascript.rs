//! JavaScript, read with the grammar of the `tree_sitter_javascript`
//! crate.

use super::grammar::{
    captured, captured_nodes, children_of_kind, definition_on_rows, is_named, is_word,
    javascript_language, kind_is, kind_of_node, line_after, name_text, names, node_children,
    node_children_of, node_end_row, node_field, node_field_of, node_first_row_of, node_kind,
    node_kind_of, node_last_row_of, node_start_row, node_text, node_text_of, of_kind, root_of,
    syntax_tree, text_of_node, tree_of, tree_root,
};
use super::LanguageParser;
use crate::docstring::{update_views, UpdatedDocstring};
use crate::error::{DocGenError, DocGenResult};
use crate::extract::{
    collect_items, declaration_views, definition_views, items_of, parameter_views, Declaration,
    DeclarationView, Definition, DefinitionView, Parameter, ParameterForm, ParameterView,
};
use crate::lines::lines_of;
use crate::parser::{item_views, text_option, ParsedCode};
use crate::rewrite::{rewrite, rewritten, DocConvention};
use tree_sitter::{Language, Node};
use vstd::prelude::*;

verus! {

/// The parameter that a node of a parameter list declares, by the kind
/// and text of the node: an identifier declares itself; an assignment
/// to an identifier, whose kind and text are `target`, declares it with
/// a default value; a rest pattern declares the first identifier in
/// it, `spread`, as variadic; a destructuring pattern stands for
/// itself. Other nodes declare nothing.
pub open spec fn parameter_of_node(
    kind: Seq<char>,
    text: Seq<char>,
    target: Option<(Seq<char>, Seq<char>)>,
    spread: Option<Seq<char>>,
) -> Option<ParameterView> {
    if kind == "identifier"@ {
        Some(ParameterView { name: text, form: ParameterForm::Plain })
    } else if kind == "assignment_pattern"@ {
        match target {
            Some((left_kind, left_text)) => if left_kind == "identifier"@ {
                Some(ParameterView { name: left_text, form: ParameterForm::WithDefault })
            } else {
                None
            },
            None => None,
        }
    } else if kind == "rest_pattern"@ {
        match spread {
            Some(name) => Some(ParameterView { name, form: ParameterForm::Variadic }),
            None => None,
        }
    } else if kind == "object_pattern"@ || kind == "array_pattern"@ {
        Some(ParameterView { name: text, form: ParameterForm::Plain })
    } else {
        None
    }
}

/// The parameter that a node of a parameter list declares.
pub fn node_parameter(
    kind: &str,
    text: String,
    target_kind: Option<&str>,
    target_text: Option<String>,
    spread: Option<String>,
) -> (r: Option<Parameter>)
    ensures
        match r {
            Some(p) => parameter_of_node(
                kind@,
                text@,
                match (target_kind, target_text) {
                    (Some(k), Some(t)) => Some((k@, t@)),
                    _ => None,
                },
                text_option(spread),
            ) == Some(p@),
            None => parameter_of_node(
                kind@,
                text@,
                match (target_kind, target_text) {
                    (Some(k), Some(t)) => Some((k@, t@)),
                    _ => None,
                },
                text_option(spread),
            ) is None,
        },
{
    if is_word(kind, "identifier") {
        Some(Parameter { name: text, form: ParameterForm::Plain })
    } else if is_word(kind, "assignment_pattern") {
        match (target_kind, target_text) {
            (Some(k), Some(t)) => if is_word(k, "identifier") {
                Some(Parameter { name: t, form: ParameterForm::WithDefault })
            } else {
                None
            },
            _ => None,
        }
    } else if is_word(kind, "rest_pattern") {
        match spread {
            Some(name) => Some(Parameter { name, form: ParameterForm::Variadic }),
            None => None,
        }
    } else if is_word(kind, "object_pattern") || is_word(kind, "array_pattern") {
        Some(Parameter { name: text, form: ParameterForm::Plain })
    } else {
        None
    }
}

/// Whether a member of a class body is listed as a method: its name is
/// a plain property name.
pub fn is_plainly_named(name_kind: Option<&str>) -> (r: bool)
    ensures
        r == names(name_kind, "property_identifier"@),
{
    is_named(name_kind, "property_identifier")
}

/// The text of the first child of a node that is an identifier.
pub open spec fn first_identifier(node: Node<'_>, content: Seq<char>) -> Option<Seq<char>> {
    let inner = of_kind(node_children_of(node), "identifier"@);
    if inner.len() > 0 {
        Some(node_text_of(inner[0], content))
    } else {
        None
    }
}

/// The kind and text of the node in the field `left` of a node.
pub open spec fn target_of(node: Node<'_>, content: Seq<char>) -> Option<(Seq<char>, Seq<char>)> {
    match node_field_of(node, "left"@) {
        Some(target) => Some((node_kind_of(target), node_text_of(target, content))),
        None => None,
    }
}

/// The parameter that one node of a parameter list declares.
pub open spec fn declared_parameter(node: Node<'_>, content: Seq<char>) -> Option<ParameterView> {
    parameter_of_node(
        node_kind_of(node),
        node_text_of(node, content),
        target_of(node, content),
        first_identifier(node, content),
    )
}

/// The parameters that the nodes declare, in order.
pub open spec fn declared_parameters(nodes: Seq<Node<'_>>, content: Seq<char>) -> Seq<
    ParameterView,
>
    decreases nodes.len(),
{
    if nodes.len() == 0 {
        Seq::empty()
    } else {
        match declared_parameter(nodes.last(), content) {
            Some(p) => declared_parameters(nodes.drop_last(), content).push(p),
            None => declared_parameters(nodes.drop_last(), content),
        }
    }
}

/// What a function, class or method node defines: its name is the text
/// of its field `name`, its lines are those of its rows, and its
/// parameters are those that the children of its field `parameters`
/// declare.
pub open spec fn definition_view(node: Node<'_>, content: Seq<char>) -> DefinitionView {
    DefinitionView {
        name: name_text(node, content),
        first_line: line_after(node_first_row_of(node)),
        last_line: line_after(node_last_row_of(node)),
        parameters: match node_field_of(node, "parameters"@) {
            Some(list) => declared_parameters(node_children_of(list), content),
            None => Seq::empty(),
        },
        returns: None,
        inline_doc: None,
    }
}

/// What the plainly named among the method nodes define, in order.
pub open spec fn plain_methods(nodes: Seq<Node<'_>>, content: Seq<char>) -> Seq<DefinitionView>
    decreases nodes.len(),
{
    if nodes.len() == 0 {
        Seq::empty()
    } else if kind_is(node_field_of(nodes.last(), "name"@), "property_identifier"@) {
        plain_methods(nodes.drop_last(), content).push(definition_view(nodes.last(), content))
    } else {
        plain_methods(nodes.drop_last(), content)
    }
}

/// The methods that a class body defines under a plain name: those of
/// its children of the kind `method_definition`, in order.
pub open spec fn body_methods(body: Node<'_>, content: Seq<char>) -> Seq<DefinitionView> {
    plain_methods(of_kind(node_children_of(body), "method_definition"@), content)
}

/// The declaration for a class node: the class with the methods of its
/// body.
pub open spec fn class_view(node: Node<'_>, content: Seq<char>) -> DeclarationView {
    DeclarationView::Class(
        definition_view(node, content),
        match node_field_of(node, "body"@) {
            Some(body) => body_methods(body, content),
            None => Seq::empty(),
        },
    )
}

/// The declarations for the function nodes, in order.
pub open spec fn functions_found(nodes: Seq<Node<'_>>, content: Seq<char>) -> Seq<DeclarationView> {
    Seq::new(nodes.len(), |i: int| DeclarationView::Function(definition_view(nodes[i], content)))
}

/// The declarations for the class nodes, in order.
pub open spec fn classes_found(nodes: Seq<Node<'_>>, content: Seq<char>) -> Seq<DeclarationView> {
    Seq::new(nodes.len(), |i: int| class_view(nodes[i], content))
}

/// The pattern for function declarations.
pub open spec fn function_pattern() -> Seq<char> {
    "(function_declaration name: (identifier) @function_name) @function"@
}

/// The pattern for class declarations.
pub open spec fn class_pattern() -> Seq<char> {
    "(class_declaration name: (identifier) @class_name) @class"@
}

/// What is found below the root of a tree: first the function
/// declarations, then the class declarations, each with the methods of
/// its body; `None` where the grammar does not accept one of the
/// patterns.
pub open spec fn found_below(language: Language, root: Node<'_>, content: Seq<char>) -> Option<
    Seq<DeclarationView>,
> {
    match (
        captured(language, function_pattern(), "function"@, root, content),
        captured(language, class_pattern(), "class"@, root, content),
    ) {
        (Some(functions), Some(classes)) => Some(
            functions_found(functions, content) + classes_found(classes, content),
        ),
        _ => None,
    }
}

/// What is found in a text: what is found below the root of its tree;
/// `None` where the grammar yields no tree.
pub open spec fn found_in(language: Language, content: Seq<char>) -> Option<Seq<DeclarationView>> {
    match tree_of(language, content) {
        Some(tree) => found_below(language, root_of(&tree), content),
        None => None,
    }
}

/// The parameter that one node of a parameter list declares.
fn parameter_of(node: Node<'_>, content: &str) -> (r: Option<Parameter>)
    ensures
        match r {
            Some(p) => declared_parameter(node, content@) == Some(p@),
            None => declared_parameter(node, content@) is None,
        },
{
    let target = node_field(node, "left");
    let inner = children_of_kind(node, "identifier");
    node_parameter(
        node_kind(node),
        node_text(node, content),
        kind_of_node(target),
        text_of_node(target, content),
        if inner.len() > 0 {
            Some(node_text(inner[0], content))
        } else {
            None
        },
    )
}

/// The parameters that a parameter list declares, in order.
fn parameters_of(list: Node<'_>, content: &str) -> (r: Vec<Parameter>)
    ensures
        parameter_views(r@) == declared_parameters(node_children_of(list), content@),
{
    let declared = node_children(list);
    let mut parameters: Vec<Parameter> = Vec::new();
    let mut i: usize = 0;
    assert(declared@.take(0) =~= Seq::<Node<'_>>::empty());
    assert(parameter_views(parameters@) =~= declared_parameters(declared@.take(0), content@));
    while i < declared.len()
        invariant
            i <= declared.len(),
            parameter_views(parameters@) == declared_parameters(
                declared@.take(i as int),
                content@,
            ),
        decreases declared.len() - i,
    {
        let ghost before = parameter_views(parameters@);
        assert(declared@.take(i + 1).drop_last() =~= declared@.take(i as int));
        assert(declared@.take(i + 1).last() == declared@[i as int]);
        match parameter_of(declared[i], content) {
            Some(parameter) => {
                parameters.push(parameter);
                assert(parameter_views(parameters@) =~= before.push(parameter@));
            },
            None => {},
        }
        i += 1;
    }
    assert(declared@.take(declared.len() as int) =~= declared@);
    parameters
}

/// What the grammar reports of a function, class or method node.
fn definition_of(node: Node<'_>, content: &str) -> (r: Definition)
    ensures
        r@ == definition_view(node, content@),
{
    let parameters: Vec<Parameter> = match node_field(node, "parameters") {
        Some(list) => parameters_of(list, content),
        None => Vec::new(),
    };
    assert(node_field_of(node, "parameters"@) is None ==> parameter_views(parameters@)
        =~= Seq::<ParameterView>::empty());
    definition_on_rows(
        match node_field(node, "name") {
            Some(name) => node_text(name, content),
            None => String::new(),
        },
        node_start_row(node),
        node_end_row(node),
        parameters,
        None,
    )
}

/// The methods, in order, that a class body defines under a plain name.
fn methods_of(body: Node<'_>, content: &str) -> (r: Vec<Definition>)
    ensures
        definition_views(r@) == body_methods(body, content@),
{
    let members = children_of_kind(body, "method_definition");
    let mut methods: Vec<Definition> = Vec::new();
    let mut i: usize = 0;
    assert(members@.take(0) =~= Seq::<Node<'_>>::empty());
    assert(definition_views(methods@) =~= plain_methods(members@.take(0), content@));
    while i < members.len()
        invariant
            i <= members.len(),
            definition_views(methods@) == plain_methods(members@.take(i as int), content@),
        decreases members.len() - i,
    {
        let ghost before = definition_views(methods@);
        assert(members@.take(i + 1).drop_last() =~= members@.take(i as int));
        assert(members@.take(i + 1).last() == members@[i as int]);
        if is_plainly_named(kind_of_node(node_field(members[i], "name"))) {
            let method = definition_of(members[i], content);
            methods.push(method);
            assert(definition_views(methods@) =~= before.push(method@));
        }
        i += 1;
    }
    assert(members@.take(members.len() as int) =~= members@);
    methods
}

/// JavaScript source text.
pub struct JavaScriptParser {
    language: Language,
}

impl JavaScriptParser {
    pub fn new() -> (r: Self) {
        JavaScriptParser { language: javascript_language() }
    }

    /// The grammar with which the parser reads.
    pub closed spec fn grammar(&self) -> Language {
        self.language
    }

    /// What the grammar finds in `content`: first the function
    /// declarations, then the class declarations, each with the methods
    /// of its body. `Err` if the grammar yields no tree or does not
    /// accept one of the patterns.
    pub fn declarations(&self, content: &str) -> (r: DocGenResult<Vec<Declaration>>)
        ensures
            match found_in(self.grammar(), content@) {
                Some(found) => r matches Ok(declarations) && declaration_views(declarations@)
                    == found,
                None => r matches Err(DocGenError::ParsingError(_)),
            },
    {
        let tree = match syntax_tree(self.language, content) {
            Some(tree) => tree,
            None => {
                return Err(
                    DocGenError::ParsingError(String::from_str("Failed to parse JavaScript code")),
                );
            },
        };
        let root = tree_root(&tree);
        let functions = match captured_nodes(
            self.language,
            "(function_declaration name: (identifier) @function_name) @function",
            "function",
            root,
            content,
        ) {
            Some(nodes) => nodes,
            None => {
                return Err(
                    DocGenError::ParsingError(String::from_str("Failed to create function query")),
                );
            },
        };
        let classes = match captured_nodes(
            self.language,
            "(class_declaration name: (identifier) @class_name) @class",
            "class",
            root,
            content,
        ) {
            Some(nodes) => nodes,
            None => {
                return Err(
                    DocGenError::ParsingError(String::from_str("Failed to create class query")),
                );
            },
        };
        let mut declarations: Vec<Declaration> = Vec::new();
        let mut i: usize = 0;
        assert(declaration_views(declarations@) =~= functions_found(functions@, content@).take(0));
        while i < functions.len()
            invariant
                i <= functions.len(),
                declaration_views(declarations@) == functions_found(functions@, content@).take(
                    i as int,
                ),
            decreases functions.len() - i,
        {
            let ghost before = declaration_views(declarations@);
            let found = Declaration::Function(definition_of(functions[i], content));
            declarations.push(found);
            assert(declaration_views(declarations@) =~= before.push(found@));
            assert(functions_found(functions@, content@).take(i + 1) =~= functions_found(
                functions@,
                content@,
            ).take(i as int).push(found@));
            i += 1;
        }
        assert(functions_found(functions@, content@).take(functions.len() as int)
            =~= functions_found(functions@, content@));
        let ghost first = declaration_views(declarations@);
        i = 0;
        assert(declaration_views(declarations@) =~= first + classes_found(classes@, content@).take(
            0,
        ));
        while i < classes.len()
            invariant
                i <= classes.len(),
                declaration_views(declarations@) == first + classes_found(classes@, content@).take(
                    i as int,
                ),
            decreases classes.len() - i,
        {
            let class = classes[i];
            let ghost before = declaration_views(declarations@);
            let methods: Vec<Definition> = match node_field(class, "body") {
                Some(body) => methods_of(body, content),
                None => Vec::new(),
            };
            assert(node_field_of(class, "body"@) is None ==> definition_views(methods@)
                =~= Seq::<DefinitionView>::empty());
            let found = Declaration::Class(definition_of(class, content), methods);
            assert(found@ == class_view(classes@[i as int], content@));
            declarations.push(found);
            assert(declaration_views(declarations@) =~= before.push(found@));
            assert(first + classes_found(classes@, content@).take(i + 1) =~= (first
                + classes_found(classes@, content@).take(i as int)).push(found@));
            i += 1;
        }
        assert(classes_found(classes@, content@).take(classes.len() as int) =~= classes_found(
            classes@,
            content@,
        ));
        Ok(declarations)
    }
}

impl LanguageParser for JavaScriptParser {
    open spec fn convention(&self) -> DocConvention {
        DocConvention::BlockComment
    }

    /// The items of `content`: those of the functions, classes and
    /// methods that the grammar reports. A definition is documented by
    /// the `/** ... */` block above it.
    fn parse(&self, content: &str) -> (r: DocGenResult<ParsedCode>)
        ensures
            match found_in(self.grammar(), content@) {
                Some(found) => r matches Ok(parsed) && parsed@.original_content == content@
                    && parsed@.items == items_of(
                    DocConvention::BlockComment,
                    lines_of(content@),
                    found,
                ),
                None => r matches Err(DocGenError::ParsingError(_)),
            },
    {
        match self.declarations(content) {
            Ok(declarations) => {
                let parsed = collect_items(DocConvention::BlockComment, content, &declarations);
                assert(parsed@.items == items_of(
                    self.convention(),
                    lines_of(content@),
                    declaration_views(declarations@),
                ));
                Ok(parsed)
            },
            Err(e) => Err(e),
        }
    }

    /// Rewrites `content` with the updates resolved against its own
    /// items: the documentation goes above each definition as a
    /// `/** ... */` block, in place of the one that stands there.
    fn update_content(&self, content: &str, updated_docstrings: &[UpdatedDocstring]) -> (r:
        DocGenResult<String>)
        ensures
            match found_in(self.grammar(), content@) {
                Some(found) => match rewritten(
                    DocConvention::BlockComment,
                    content@,
                    items_of(DocConvention::BlockComment, lines_of(content@), found),
                    update_views(updated_docstrings@),
                ) {
                    Some(text) => r matches Ok(s) && s@ == text,
                    None => r matches Err(DocGenError::UpdateError(_)),
                },
                None => r matches Err(DocGenError::ParsingError(_)),
            },
    {
        let parsed = match self.parse(content) {
            Ok(parsed) => parsed,
            Err(e) => {
                return Err(e);
            },
        };
        let r = rewrite(DocConvention::BlockComment, content, &parsed.items, updated_docstrings);
        proof {
            if r is Ok {
                assert(rewritten(
                    self.convention(),
                    content@,
                    item_views(parsed.items@),
                    update_views(updated_docstrings@),
                ) == Some(r->Ok_0@));
            } else {
                assert(rewritten(
                    self.convention(),
                    content@,
                    item_views(parsed.items@),
                    update_views(updated_docstrings@),
                ) is None);
            }
        }
        r
    }
}

} // verus!
