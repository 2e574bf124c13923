//! Rust, read with the grammar of the `tree_sitter_rust` crate.

use super::grammar::{
    captured, captured_nodes, children_of_kind, definition_on_rows, is_named, is_word, kind_is,
    kind_of_node, line_after, name_text, names, node_children_of, node_end_row, node_field,
    node_field_of, node_first_row_of, node_kind, node_kind_of, node_last_row_of, node_parent,
    node_parent_of, node_start_row, node_text, node_text_of, of_kind, root_of, rust_language,
    syntax_tree, text_if, text_of_node, tree_of, tree_root,
};
use super::LanguageParser;
use crate::docstring::{update_views, UpdatedDocstring};
use crate::error::{DocGenError, DocGenResult};
use crate::extract::{
    collect_items, declaration_views, definition_views, items_of, parameter_views, Declaration,
    DeclarationView, Definition, DefinitionView, Parameter, ParameterForm, ParameterView,
};
use crate::lines::lines_of;
use crate::parser::{item_views, ParsedCode};
use crate::rewrite::{rewrite, rewritten, DocConvention};
use tree_sitter::{Language, Node};
use vstd::prelude::*;

verus! {

/// The parameter that a pattern of the given kind declares: one with
/// the text of the pattern as name, if the pattern is a plain
/// identifier. The receiver of a method and other patterns declare
/// none.
pub open spec fn parameter_of_pattern(kind: Seq<char>, text: Seq<char>) -> Option<ParameterView> {
    if kind == "identifier"@ {
        Some(ParameterView { name: text, form: ParameterForm::Plain })
    } else {
        None
    }
}

/// The parameter that a pattern of the given kind declares.
pub fn pattern_parameter(kind: &str, text: String) -> (r: Option<Parameter>)
    ensures
        match r {
            Some(p) => parameter_of_pattern(kind@, text@) == Some(p@),
            None => parameter_of_pattern(kind@, text@) is None,
        },
{
    if is_word(kind, "identifier") {
        Some(Parameter { name: text, form: ParameterForm::Plain })
    } else {
        None
    }
}

/// Whether a function item is listed as a method: it stands in the
/// declaration list of an `impl` block for a plainly named type. The
/// kinds are those of the parent of the item, of the parent of that,
/// and of the type that the block is for.
pub open spec fn listed_as_method(
    parent: Option<&str>,
    owner: Option<&str>,
    owner_type: Option<&str>,
) -> bool {
    names(parent, "declaration_list"@) && names(owner, "impl_item"@) && names(
        owner_type,
        "type_identifier"@,
    )
}

/// Whether a function item is listed as a method.
pub fn is_listed_as_method(parent: Option<&str>, owner: Option<&str>, owner_type: Option<&str>) -> (r:
    bool)
    ensures
        r == listed_as_method(parent, owner, owner_type),
{
    is_named(parent, "declaration_list") && is_named(owner, "impl_item") && is_named(
        owner_type,
        "type_identifier",
    )
}

/// The parameter that a parameter node declares: that of its pattern.
pub open spec fn declared_parameter(node: Node<'_>, content: Seq<char>) -> Option<ParameterView> {
    match node_field_of(node, "pattern"@) {
        Some(pattern) => parameter_of_pattern(
            node_kind_of(pattern),
            node_text_of(pattern, content),
        ),
        None => None,
    }
}

/// The parameters that the parameter nodes declare, in order.
pub open spec fn declared_parameters(nodes: Seq<Node<'_>>, content: Seq<char>) -> Seq<
    ParameterView,
>
    decreases nodes.len(),
{
    if nodes.len() == 0 {
        Seq::empty()
    } else {
        match declared_parameter(nodes.last(), content) {
            Some(p) => declared_parameters(nodes.drop_last(), content).push(p),
            None => declared_parameters(nodes.drop_last(), content),
        }
    }
}

/// The parameters that an ordinary parameter list declares: those of
/// its children of the kind `parameter`, in order.
pub open spec fn list_parameters(list: Node<'_>, content: Seq<char>) -> Seq<ParameterView> {
    declared_parameters(of_kind(node_children_of(list), "parameter"@), content)
}

/// What a function item defines: its name is the text of its field
/// `name`, its lines are those of its rows, its parameters are those of
/// its field `parameters`, and its return annotation is the text of its
/// field `return_type`.
pub open spec fn function_view(node: Node<'_>, content: Seq<char>) -> DefinitionView {
    DefinitionView {
        name: name_text(node, content),
        first_line: line_after(node_first_row_of(node)),
        last_line: line_after(node_last_row_of(node)),
        parameters: match node_field_of(node, "parameters"@) {
            Some(list) => list_parameters(list, content),
            None => Seq::empty(),
        },
        returns: text_if(node_field_of(node, "return_type"@), content),
        inline_doc: None,
    }
}

/// The node around the node around a node.
pub open spec fn owner_of(node: Node<'_>) -> Option<Node<'_>> {
    match node_parent_of(node) {
        Some(list) => node_parent_of(list),
        None => None,
    }
}

/// The type that the block around the list around a node is for.
pub open spec fn owner_type_of(node: Node<'_>) -> Option<Node<'_>> {
    match owner_of(node) {
        Some(block) => node_field_of(block, "type"@),
        None => None,
    }
}

/// Whether a function item is listed as a method: it stands in the
/// declaration list of an `impl` block for a plainly named type.
pub open spec fn method_node(node: Node<'_>) -> bool {
    kind_is(node_parent_of(node), "declaration_list"@) && kind_is(owner_of(node), "impl_item"@)
        && kind_is(owner_type_of(node), "type_identifier"@)
}

/// The declarations for the function items that are no methods, in
/// order.
pub open spec fn free_functions(nodes: Seq<Node<'_>>, content: Seq<char>) -> Seq<DeclarationView>
    decreases nodes.len(),
{
    if nodes.len() == 0 {
        Seq::empty()
    } else if method_node(nodes.last()) {
        free_functions(nodes.drop_last(), content)
    } else {
        free_functions(nodes.drop_last(), content).push(
            DeclarationView::Function(function_view(nodes.last(), content)),
        )
    }
}

/// The declaration for a struct item: a class without methods.
pub open spec fn struct_view(node: Node<'_>, content: Seq<char>) -> DeclarationView {
    DeclarationView::Class(
        DefinitionView {
            name: name_text(node, content),
            first_line: line_after(node_first_row_of(node)),
            last_line: line_after(node_last_row_of(node)),
            parameters: Seq::empty(),
            returns: None,
            inline_doc: None,
        },
        Seq::empty(),
    )
}

/// The declarations for the struct items, in order.
pub open spec fn structs_found(nodes: Seq<Node<'_>>, content: Seq<char>) -> Seq<DeclarationView> {
    Seq::new(nodes.len(), |i: int| struct_view(nodes[i], content))
}

/// What the function items define, in order.
pub open spec fn function_views(nodes: Seq<Node<'_>>, content: Seq<char>) -> Seq<DefinitionView> {
    Seq::new(nodes.len(), |i: int| function_view(nodes[i], content))
}

/// The declaration for an `impl` block: the function items of its body
/// as methods of the type that it is for; none where the block lacks
/// type or body.
pub open spec fn block_view(block: Node<'_>, content: Seq<char>) -> Option<DeclarationView> {
    match (node_field_of(block, "type"@), node_field_of(block, "body"@)) {
        (Some(owner), Some(body)) => Some(
            DeclarationView::Methods(
                node_text_of(owner, content),
                function_views(of_kind(node_children_of(body), "function_item"@), content),
            ),
        ),
        _ => None,
    }
}

/// The declarations for the `impl` blocks, in order.
pub open spec fn blocks_found(nodes: Seq<Node<'_>>, content: Seq<char>) -> Seq<DeclarationView>
    decreases nodes.len(),
{
    if nodes.len() == 0 {
        Seq::empty()
    } else {
        match block_view(nodes.last(), content) {
            Some(found) => blocks_found(nodes.drop_last(), content).push(found),
            None => blocks_found(nodes.drop_last(), content),
        }
    }
}

/// The pattern for function items.
pub open spec fn function_pattern() -> Seq<char> {
    "(function_item name: (identifier) @function_name) @function"@
}

/// The pattern for struct items.
pub open spec fn struct_pattern() -> Seq<char> {
    "(struct_item name: (type_identifier) @struct_name) @struct"@
}

/// The pattern for `impl` blocks of plainly named types.
pub open spec fn block_pattern() -> Seq<char> {
    "(impl_item type: (type_identifier) @impl_type) @impl"@
}

/// What is found below the root of a tree: first the functions that
/// are no methods, then the structs, then the methods of the `impl`
/// blocks; `None` where the grammar does not accept one of the
/// patterns.
pub open spec fn found_below(language: Language, root: Node<'_>, content: Seq<char>) -> Option<
    Seq<DeclarationView>,
> {
    match (
        captured(language, function_pattern(), "function"@, root, content),
        captured(language, struct_pattern(), "struct"@, root, content),
        captured(language, block_pattern(), "impl"@, root, content),
    ) {
        (Some(functions), Some(structs), Some(blocks)) => Some(
            free_functions(functions, content) + structs_found(structs, content) + blocks_found(
                blocks,
                content,
            ),
        ),
        _ => None,
    }
}

/// What is found in a text: what is found below the root of its tree;
/// `None` where the grammar yields no tree.
pub open spec fn found_in(language: Language, content: Seq<char>) -> Option<Seq<DeclarationView>> {
    match tree_of(language, content) {
        Some(tree) => found_below(language, root_of(&tree), content),
        None => None,
    }
}

/// The parameters that an ordinary parameter list declares, in order.
fn parameters_of(list: Node<'_>, content: &str) -> (r: Vec<Parameter>)
    ensures
        parameter_views(r@) == list_parameters(list, content@),
{
    let declared = children_of_kind(list, "parameter");
    let mut parameters: Vec<Parameter> = Vec::new();
    let mut i: usize = 0;
    assert(declared@.take(0) =~= Seq::<Node<'_>>::empty());
    assert(parameter_views(parameters@) =~= declared_parameters(declared@.take(0), content@));
    while i < declared.len()
        invariant
            i <= declared.len(),
            parameter_views(parameters@) == declared_parameters(
                declared@.take(i as int),
                content@,
            ),
        decreases declared.len() - i,
    {
        let ghost before = parameter_views(parameters@);
        assert(declared@.take(i + 1).drop_last() =~= declared@.take(i as int));
        assert(declared@.take(i + 1).last() == declared@[i as int]);
        match node_field(declared[i], "pattern") {
            Some(pattern) => {
                match pattern_parameter(node_kind(pattern), node_text(pattern, content)) {
                    Some(parameter) => {
                        parameters.push(parameter);
                        assert(parameter_views(parameters@) =~= before.push(parameter@));
                    },
                    None => {},
                }
            },
            None => {},
        }
        i += 1;
    }
    assert(declared@.take(declared.len() as int) =~= declared@);
    parameters
}

/// What the grammar reports of a function item.
fn function_definition(node: Node<'_>, content: &str) -> (r: Definition)
    ensures
        r@ == function_view(node, content@),
{
    let parameters: Vec<Parameter> = match node_field(node, "parameters") {
        Some(list) => parameters_of(list, content),
        None => Vec::new(),
    };
    assert(node_field_of(node, "parameters"@) is None ==> parameter_views(parameters@)
        =~= Seq::<ParameterView>::empty());
    definition_on_rows(
        match node_field(node, "name") {
            Some(name) => node_text(name, content),
            None => String::new(),
        },
        node_start_row(node),
        node_end_row(node),
        parameters,
        text_of_node(node_field(node, "return_type"), content),
    )
}

/// Whether a function item is listed as a method.
fn is_method(node: Node<'_>) -> (r: bool)
    ensures
        r == method_node(node),
{
    let parent = node_parent(node);
    let owner = match parent {
        Some(list) => node_parent(list),
        None => None,
    };
    let owner_type = match owner {
        Some(block) => node_field(block, "type"),
        None => None,
    };
    is_listed_as_method(kind_of_node(parent), kind_of_node(owner), kind_of_node(owner_type))
}

/// Rust source text.
pub struct RustParser {
    language: Language,
}

impl RustParser {
    pub fn new() -> (r: Self) {
        RustParser { language: rust_language() }
    }

    /// The grammar with which the parser reads.
    pub closed spec fn grammar(&self) -> Language {
        self.language
    }

    /// What the grammar finds in `content`: first the functions that are
    /// no methods, then the structs, as classes without methods, then,
    /// for each `impl` block of a plainly named type, the functions of
    /// its body as methods of that type. `Err` if the grammar yields no
    /// tree or does not accept one of the patterns.
    pub fn declarations(&self, content: &str) -> (r: DocGenResult<Vec<Declaration>>)
        ensures
            match found_in(self.grammar(), content@) {
                Some(found) => r matches Ok(declarations) && declaration_views(declarations@)
                    == found,
                None => r matches Err(DocGenError::ParsingError(_)),
            },
    {
        let tree = match syntax_tree(self.language, content) {
            Some(tree) => tree,
            None => {
                return Err(DocGenError::ParsingError(String::from_str("Failed to parse Rust code")));
            },
        };
        let root = tree_root(&tree);
        let functions = match captured_nodes(
            self.language,
            "(function_item name: (identifier) @function_name) @function",
            "function",
            root,
            content,
        ) {
            Some(nodes) => nodes,
            None => {
                return Err(
                    DocGenError::ParsingError(String::from_str("Failed to create function query")),
                );
            },
        };
        let structs = match captured_nodes(
            self.language,
            "(struct_item name: (type_identifier) @struct_name) @struct",
            "struct",
            root,
            content,
        ) {
            Some(nodes) => nodes,
            None => {
                return Err(
                    DocGenError::ParsingError(String::from_str("Failed to create struct query")),
                );
            },
        };
        let blocks = match captured_nodes(
            self.language,
            "(impl_item type: (type_identifier) @impl_type) @impl",
            "impl",
            root,
            content,
        ) {
            Some(nodes) => nodes,
            None => {
                return Err(
                    DocGenError::ParsingError(String::from_str("Failed to create impl query")),
                );
            },
        };
        let mut declarations: Vec<Declaration> = Vec::new();
        let mut i: usize = 0;
        assert(functions@.take(0) =~= Seq::<Node<'_>>::empty());
        assert(declaration_views(declarations@) =~= free_functions(functions@.take(0), content@));
        while i < functions.len()
            invariant
                i <= functions.len(),
                declaration_views(declarations@) == free_functions(
                    functions@.take(i as int),
                    content@,
                ),
            decreases functions.len() - i,
        {
            let ghost before = declaration_views(declarations@);
            assert(functions@.take(i + 1).drop_last() =~= functions@.take(i as int));
            assert(functions@.take(i + 1).last() == functions@[i as int]);
            if !is_method(functions[i]) {
                let found = Declaration::Function(function_definition(functions[i], content));
                declarations.push(found);
                assert(declaration_views(declarations@) =~= before.push(found@));
            }
            i += 1;
        }
        assert(functions@.take(functions.len() as int) =~= functions@);
        let ghost free = declaration_views(declarations@);
        i = 0;
        assert(declaration_views(declarations@) =~= free + structs_found(structs@, content@).take(
            0,
        ));
        while i < structs.len()
            invariant
                i <= structs.len(),
                declaration_views(declarations@) == free + structs_found(structs@, content@).take(
                    i as int,
                ),
            decreases structs.len() - i,
        {
            let node = structs[i];
            let ghost before = declaration_views(declarations@);
            let none: Vec<Parameter> = Vec::new();
            let empty: Vec<Definition> = Vec::new();
            assert(parameter_views(none@) =~= Seq::<ParameterView>::empty());
            assert(definition_views(empty@) =~= Seq::<DefinitionView>::empty());
            let found = Declaration::Class(
                definition_on_rows(
                    match node_field(node, "name") {
                        Some(name) => node_text(name, content),
                        None => String::new(),
                    },
                    node_start_row(node),
                    node_end_row(node),
                    none,
                    None,
                ),
                empty,
            );
            assert(found@ == struct_view(structs@[i as int], content@));
            declarations.push(found);
            assert(declaration_views(declarations@) =~= before.push(found@));
            assert(free + structs_found(structs@, content@).take(i + 1) =~= (free + structs_found(
                structs@,
                content@,
            ).take(i as int)).push(struct_view(structs@[i as int], content@)));
            i += 1;
        }
        assert(structs_found(structs@, content@).take(structs.len() as int) =~= structs_found(
            structs@,
            content@,
        ));
        let ghost plain = declaration_views(declarations@);
        i = 0;
        assert(blocks@.take(0) =~= Seq::<Node<'_>>::empty());
        assert(declaration_views(declarations@) =~= plain + blocks_found(
            blocks@.take(0),
            content@,
        ));
        while i < blocks.len()
            invariant
                i <= blocks.len(),
                declaration_views(declarations@) == plain + blocks_found(
                    blocks@.take(i as int),
                    content@,
                ),
            decreases blocks.len() - i,
        {
            let block = blocks[i];
            let ghost before = declaration_views(declarations@);
            let ghost seen = blocks_found(blocks@.take(i as int), content@);
            assert(blocks@.take(i + 1).drop_last() =~= blocks@.take(i as int));
            assert(blocks@.take(i + 1).last() == block);
            match (node_field(block, "type"), node_field(block, "body")) {
                (Some(owner), Some(body)) => {
                    let members = children_of_kind(body, "function_item");
                    let mut methods: Vec<Definition> = Vec::new();
                    let mut j: usize = 0;
                    while j < members.len()
                        invariant
                            j <= members.len(),
                            methods.len() == j,
                            forall|k: int|
                                0 <= k < j ==> (#[trigger] methods@[k])@ == function_view(
                                    members@[k],
                                    content@,
                                ),
                        decreases members.len() - j,
                    {
                        methods.push(function_definition(members[j], content));
                        j += 1;
                    }
                    assert(definition_views(methods@) =~= function_views(members@, content@));
                    let found = Declaration::Methods(node_text(owner, content), methods);
                    assert(Some(found@) == block_view(block, content@));
                    declarations.push(found);
                    assert(declaration_views(declarations@) =~= before.push(found@));
                    assert(plain + seen.push(found@) =~= (plain + seen).push(found@));
                },
                _ => {
                    assert(block_view(block, content@) is None);
                },
            }
            i += 1;
        }
        assert(blocks@.take(blocks.len() as int) =~= blocks@);
        Ok(declarations)
    }
}

impl LanguageParser for RustParser {
    open spec fn convention(&self) -> DocConvention {
        DocConvention::LineComments
    }

    /// The items of `content`: those of the functions, structs and
    /// methods that the grammar reports; a struct is listed as a class.
    /// A definition is documented by the `///` lines above it.
    fn parse(&self, content: &str) -> (r: DocGenResult<ParsedCode>)
        ensures
            match found_in(self.grammar(), content@) {
                Some(found) => r matches Ok(parsed) && parsed@.original_content == content@
                    && parsed@.items == items_of(
                    DocConvention::LineComments,
                    lines_of(content@),
                    found,
                ),
                None => r matches Err(DocGenError::ParsingError(_)),
            },
    {
        match self.declarations(content) {
            Ok(declarations) => {
                let parsed = collect_items(DocConvention::LineComments, content, &declarations);
                assert(parsed@.items == items_of(
                    self.convention(),
                    lines_of(content@),
                    declaration_views(declarations@),
                ));
                Ok(parsed)
            },
            Err(e) => Err(e),
        }
    }

    /// Rewrites `content` with the updates resolved against its own
    /// items: the documentation goes above each definition as `///`
    /// lines, in place of those that stand there.
    fn update_content(&self, content: &str, updated_docstrings: &[UpdatedDocstring]) -> (r:
        DocGenResult<String>)
        ensures
            match found_in(self.grammar(), content@) {
                Some(found) => match rewritten(
                    DocConvention::LineComments,
                    content@,
                    items_of(DocConvention::LineComments, lines_of(content@), found),
                    update_views(updated_docstrings@),
                ) {
                    Some(text) => r matches Ok(s) && s@ == text,
                    None => r matches Err(DocGenError::UpdateError(_)),
                },
                None => r matches Err(DocGenError::ParsingError(_)),
            },
    {
        let parsed = match self.parse(content) {
            Ok(parsed) => parsed,
            Err(e) => {
                return Err(e);
            },
        };
        let r = rewrite(DocConvention::LineComments, content, &parsed.items, updated_docstrings);
        proof {
            if r is Ok {
                assert(rewritten(
                    self.convention(),
                    content@,
                    item_views(parsed.items@),
                    update_views(updated_docstrings@),
                ) == Some(r->Ok_0@));
            } else {
                assert(rewritten(
                    self.convention(),
                    content@,
                    item_views(parsed.items@),
                    update_views(updated_docstrings@),
                ) is None);
            }
        }
        r
    }
}

} // verus!
