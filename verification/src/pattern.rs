//! Finding definitions by their shape, without a grammar.
//!
//! For languages that write `function name(parameters) { ... }` and
//! `class Name { ... }`. A definition is recognized by its keyword, its
//! name and its parenthesized parameters; a body is the text between an
//! opening brace and the brace that closes it, found by counting
//! nesting. The scan knows nothing of strings and comments: a brace or
//! a keyword inside one counts like any other.

use crate::extract::{
    declaration_views, definition_views, parameter_views, Declaration, DeclarationView,
    Definition, DefinitionView, Parameter, ParameterForm, ParameterView,
};
use crate::lines::rows;
use crate::parser::text_option;
use crate::text::{
    chars_of, has_prefix, is_space, is_whitespace, lemma_skip_forward, matches_at, occurs_at,
    same_text, skip_forward, skip_spaces, slice_of, starts_with, text_of, trim, trimmed,
};
use vstd::prelude::*;

verus! {

/// Characters of which names are made.
pub open spec fn is_word_char(c: char) -> bool {
    ('a' <= c <= 'z') || ('A' <= c <= 'Z') || ('0' <= c <= '9') || c == '_' || c == '$'
}

/// Whether `c` is a character of which names are made.
pub fn is_name_char(c: char) -> (r: bool)
    ensures
        r == is_word_char(c),
{
    ('a' <= c && c <= 'z') || ('A' <= c && c <= 'Z') || ('0' <= c && c <= '9') || c == '_' || c
        == '$'
}

/// The index behind the name that starts at `from`.
pub open spec fn word_end(s: Seq<char>, from: int) -> int {
    skip_forward(s, |c: char| is_word_char(c), from)
}

/// The index of the first character at or after `from` that is not
/// white space.
pub open spec fn blank_end(s: Seq<char>, from: int) -> int {
    skip_forward(s, |c: char| is_space(c), from)
}

/// The index of the `close` that brings the nesting back to zero, for
/// a scan that stands at `i` inside `depth` unclosed `open`; `-1` if
/// the text ends first.
pub open spec fn closing(s: Seq<char>, i: int, depth: nat, open: char, close: char) -> int
    decreases s.len() - i,
{
    if i < 0 || i >= s.len() {
        -1
    } else if s[i] == close {
        if depth <= 1 {
            i
        } else {
            closing(s, i + 1, (depth - 1) as nat, open, close)
        }
    } else if s[i] == open {
        closing(s, i + 1, depth + 1, open, close)
    } else {
        closing(s, i + 1, depth, open, close)
    }
}

/// The index of the first `{` or `;` at or after `from`; the length of
/// the text if there is none.
pub open spec fn body_open(s: Seq<char>, from: int) -> int {
    skip_forward(s, |c: char| c != '{' && c != ';', from)
}

/// Whether `word` stands at `i` as a keyword: not inside a longer name,
/// and followed by white space.
pub open spec fn keyword_at(s: Seq<char>, i: int, word: Seq<char>) -> bool {
    &&& occurs_at(s, word, i)
    &&& (i == 0 || !is_word_char(s[i - 1]))
    &&& i + word.len() < s.len()
    &&& is_space(s[i + word.len()])
}

/// The keyword that introduces a function.
pub open spec fn function_keyword() -> Seq<char> {
    seq!['f', 'u', 'n', 'c', 't', 'i', 'o', 'n']
}

/// The keyword that introduces a class.
pub open spec fn class_keyword() -> Seq<char> {
    seq!['c', 'l', 'a', 's', 's']
}

/// The index of the `(` that opens the parameters of the callable whose
/// name starts at `n`.
pub open spec fn params_open(s: Seq<char>, n: int) -> int {
    blank_end(s, word_end(s, n))
}

/// The index of the `)` that closes the parameters of the callable
/// whose name starts at `n`; `-1` if they are not closed.
pub open spec fn params_close(s: Seq<char>, n: int) -> int {
    closing(s, params_open(s, n) + 1, 1, '(', ')')
}

/// Whether a name starts at `n` that is followed by parenthesized
/// parameters.
pub open spec fn callable_at(s: Seq<char>, n: int) -> bool {
    &&& 0 <= n < word_end(s, n)
    &&& params_open(s, n) < s.len()
    &&& s[params_open(s, n)] == '('
    &&& params_close(s, n) >= 0
}

/// The index at which the body of the callable whose name starts at
/// `n` opens, or at which the callable ends without a body, or the
/// length of the text.
pub open spec fn callable_body_open(s: Seq<char>, n: int) -> int {
    body_open(s, params_close(s, n) + 1)
}

/// The index of the `}` that closes the body of the callable whose name
/// starts at `n`; `-1` if it has no body or the body is not closed.
pub open spec fn callable_body_close(s: Seq<char>, n: int) -> int {
    let b = callable_body_open(s, n);
    if 0 <= b < s.len() && s[b] == '{' {
        closing(s, b + 1, 1, '{', '}')
    } else {
        -1
    }
}

/// The index of the last character of the callable whose name starts
/// at `n`: the brace that closes its body, or without a body the
/// parenthesis that closes its parameters.
pub open spec fn callable_last(s: Seq<char>, n: int) -> int {
    if callable_body_close(s, n) >= 0 {
        callable_body_close(s, n)
    } else {
        params_close(s, n)
    }
}

/// The number of line feeds before index `i`.
pub open spec fn line_feeds(s: Seq<char>, i: int) -> nat
    decreases i,
{
    if i <= 0 || i > s.len() {
        0
    } else if s[i - 1] == '\n' {
        line_feeds(s, i - 1) + 1
    } else {
        line_feeds(s, i - 1)
    }
}

/// The line, counted from 1, of the character at index `i`; the
/// largest number there is if the line number is larger.
pub open spec fn line_of_index(s: Seq<char>, i: int) -> nat {
    if line_feeds(s, i) < usize::MAX {
        line_feeds(s, i) + 1
    } else {
        usize::MAX as nat
    }
}

/// Whether `c` opens a bracket inside a parameter list.
pub open spec fn opens_bracket(c: char) -> bool {
    c == '(' || c == '[' || c == '{' || c == '<'
}

/// Whether the character at `i` closes a bracket inside a parameter
/// list; the `>` of an arrow does not.
pub open spec fn closes_bracket(p: Seq<char>, i: int) -> bool {
    p[i] == ')' || p[i] == ']' || p[i] == '}' || (p[i] == '>' && !(i > 0 && p[i - 1] == '='))
}

/// The pieces of a parameter list from the piece that begins at
/// `start`, for a scan that stands at `i` inside `depth` brackets:
/// pieces end at the commas outside all brackets.
pub open spec fn pieces_from(p: Seq<char>, start: int, i: int, depth: nat) -> Seq<Seq<char>>
    decreases p.len() - i,
{
    if i < start || start < 0 {
        Seq::empty()
    } else if i >= p.len() {
        seq![p.subrange(start, p.len() as int)]
    } else if opens_bracket(p[i]) {
        pieces_from(p, start, i + 1, depth + 1)
    } else if closes_bracket(p, i) {
        pieces_from(
            p,
            start,
            i + 1,
            if depth > 0 {
                (depth - 1) as nat
            } else {
                0
            },
        )
    } else if p[i] == ',' && depth == 0 {
        seq![p.subrange(start, i)] + pieces_from(p, i + 1, i + 1, 0)
    } else {
        pieces_from(p, start, i + 1, depth)
    }
}

/// The marker of a rest parameter.
pub open spec fn rest_marker() -> Seq<char> {
    seq!['.', '.', '.']
}

/// Whether a piece of a parameter list gives a default value: it holds
/// a `=` that is not the start of an arrow.
pub open spec fn gives_default(piece: Seq<char>) -> bool {
    exists|i: int|
        0 <= i < piece.len() && #[trigger] piece[i] == '=' && !(i + 1 < piece.len() && piece[i + 1]
            == '>')
}

/// The parameter that a piece of a parameter list declares, if it is
/// not blank: its name is the name with which the piece begins, behind
/// the rest marker if there is one, or the whole piece if it begins with
/// no name.
pub open spec fn parameter_in(piece: Seq<char>) -> Option<ParameterView> {
    let t = trimmed(piece);
    let rest = has_prefix(t, rest_marker());
    let named = if rest {
        t.subrange(3, t.len() as int)
    } else {
        t
    };
    if t.len() == 0 {
        None
    } else {
        Some(
            ParameterView {
                name: if word_end(named, 0) > 0 {
                    named.subrange(0, word_end(named, 0))
                } else {
                    named
                },
                form: if rest {
                    ParameterForm::Variadic
                } else if gives_default(t) {
                    ParameterForm::WithDefault
                } else {
                    ParameterForm::Plain
                },
            },
        )
    }
}

/// The parameters that the pieces declare, in order.
pub open spec fn parameters_from(pieces: Seq<Seq<char>>) -> Seq<ParameterView>
    decreases pieces.len(),
{
    if pieces.len() == 0 {
        Seq::empty()
    } else {
        match parameter_in(pieces.last()) {
            Some(p) => parameters_from(pieces.drop_last()).push(p),
            None => parameters_from(pieces.drop_last()),
        }
    }
}

/// The parameters that a parameter list declares.
pub open spec fn parameters_in(list: Seq<char>) -> Seq<ParameterView> {
    parameters_from(pieces_from(list, 0, 0, 0))
}

/// The return annotation in the text between the parameters and the
/// body: what follows a leading colon, trimmed.
pub open spec fn annotation_in(between: Seq<char>) -> Option<Seq<char>> {
    let t = trimmed(between);
    if t.len() > 0 && t[0] == ':' {
        Some(trimmed(t.subrange(1, t.len() as int)))
    } else {
        None
    }
}

/// What the shape of the callable whose name starts at `n` says of it;
/// the callable starts at `start`, with its keyword or its name.
pub open spec fn callable_definition(s: Seq<char>, start: int, n: int) -> DefinitionView {
    DefinitionView {
        name: s.subrange(n, word_end(s, n)),
        first_line: line_of_index(s, start),
        last_line: line_of_index(s, callable_last(s, n)),
        parameters: parameters_in(s.subrange(params_open(s, n) + 1, params_close(s, n))),
        returns: annotation_in(s.subrange(params_close(s, n) + 1, callable_body_open(s, n))),
        inline_doc: None,
    }
}

/// Whether a function definition starts at `i`: the keyword, then a
/// name with parenthesized parameters.
pub open spec fn function_at(s: Seq<char>, i: int) -> bool {
    keyword_at(s, i, function_keyword()) && callable_at(s, blank_end(s, i + 8))
}

/// The index at which the name of the class starts whose keyword
/// stands at `i`.
pub open spec fn class_name_start(s: Seq<char>, i: int) -> int {
    blank_end(s, i + 5)
}

/// The index of the `{` that opens the body of the class whose keyword
/// stands at `i`.
pub open spec fn class_open(s: Seq<char>, i: int) -> int {
    body_open(s, word_end(s, class_name_start(s, i)))
}

/// The index of the `}` that closes the body of the class whose
/// keyword stands at `i`; `-1` if it is not closed.
pub open spec fn class_close(s: Seq<char>, i: int) -> int {
    closing(s, class_open(s, i) + 1, 1, '{', '}')
}

/// Whether a class definition starts at `i`: the keyword, a name, and a
/// body in braces that are closed.
pub open spec fn class_at(s: Seq<char>, i: int) -> bool {
    &&& keyword_at(s, i, class_keyword())
    &&& class_name_start(s, i) < word_end(s, class_name_start(s, i))
    &&& class_open(s, i) < s.len()
    &&& s[class_open(s, i)] == '{'
    &&& class_close(s, i) >= 0
}

/// Names that look like methods by their shape and are none: the
/// constructor and the statements that take a parenthesized condition.
pub open spec fn is_reserved(name: Seq<char>) -> bool {
    ||| name == "constructor"@
    ||| name == "if"@
    ||| name == "for"@
    ||| name == "while"@
    ||| name == "switch"@
    ||| name == "catch"@
}

/// Whether a method definition starts at `i` and ends before `end`: a
/// name that is not reserved and not the tail of a longer name, with
/// parenthesized parameters and a body in braces that are closed.
pub open spec fn method_at(s: Seq<char>, i: int, end: int) -> bool {
    &&& (i == 0 || !is_word_char(s[i - 1]))
    &&& callable_at(s, i)
    &&& 0 <= callable_body_close(s, i) < end
    &&& !is_reserved(s.subrange(i, word_end(s, i)))
}

/// The methods of a class body from index `i` up to `end`, for a scan
/// that stands inside `depth` braces of the body: those that start
/// outside all braces. The scan goes on at the body of a method it
/// found.
pub open spec fn methods_from(s: Seq<char>, i: int, end: int, depth: nat) -> Seq<DefinitionView>
    decreases end - i,
{
    if i < 0 || i >= end || end > s.len() {
        Seq::empty()
    } else if s[i] == '{' {
        methods_from(s, i + 1, end, depth + 1)
    } else if s[i] == '}' {
        methods_from(
            s,
            i + 1,
            end,
            if depth > 0 {
                (depth - 1) as nat
            } else {
                0
            },
        )
    } else if depth == 0 && method_at(s, i, end) {
        let b = callable_body_open(s, i);
        seq![callable_definition(s, i, i)] + methods_from(
            s,
            if i < b < end {
                b
            } else {
                i + 1
            },
            end,
            0,
        )
    } else {
        methods_from(s, i + 1, end, depth)
    }
}

/// What the shape of the class whose keyword stands at `i` says of it.
pub open spec fn class_definition(s: Seq<char>, i: int) -> DefinitionView {
    DefinitionView {
        name: s.subrange(class_name_start(s, i), word_end(s, class_name_start(s, i))),
        first_line: line_of_index(s, i),
        last_line: line_of_index(s, class_close(s, i)),
        parameters: Seq::empty(),
        returns: None,
        inline_doc: None,
    }
}

/// The functions and classes of a text from index `i`, for a scan that
/// stands inside `depth` braces: those that start outside all braces,
/// each class with the methods of its body.
pub open spec fn declarations_from(s: Seq<char>, i: int, depth: nat) -> Seq<DeclarationView>
    decreases s.len() - i,
{
    if i < 0 || i >= s.len() {
        Seq::empty()
    } else if s[i] == '{' {
        declarations_from(s, i + 1, depth + 1)
    } else if s[i] == '}' {
        declarations_from(
            s,
            i + 1,
            if depth > 0 {
                (depth - 1) as nat
            } else {
                0
            },
        )
    } else if depth == 0 && function_at(s, i) {
        seq![DeclarationView::Function(callable_definition(s, i, blank_end(s, i + 8)))]
            + declarations_from(s, i + 1, depth)
    } else if depth == 0 && class_at(s, i) {
        seq![
            DeclarationView::Class(
                class_definition(s, i),
                methods_from(s, class_open(s, i) + 1, class_close(s, i), 0),
            ),
        ] + declarations_from(s, i + 1, depth)
    } else {
        declarations_from(s, i + 1, depth)
    }
}

/// The functions and classes that stand outside all braces of a text,
/// in order, each class with its methods.
pub open spec fn declarations_in(s: Seq<char>) -> Seq<DeclarationView> {
    declarations_from(s, 0, 0)
}

/// Where `closing` finds the delimiter, it stands at or after the
/// scan.
pub proof fn lemma_closing(s: Seq<char>, i: int, depth: nat, open: char, close: char)
    requires
        0 <= i,
    ensures
        closing(s, i, depth, open, close) == -1 || (i <= closing(s, i, depth, open, close)
            < s.len() && s[closing(s, i, depth, open, close)] == close),
    decreases s.len() - i,
{
    if i < s.len() {
        if s[i] == close {
            if depth > 1 {
                lemma_closing(s, i + 1, (depth - 1) as nat, open, close);
            }
        } else if s[i] == open {
            lemma_closing(s, i + 1, depth + 1, open, close);
        } else {
            lemma_closing(s, i + 1, depth, open, close);
        }
    }
}

/// Where a callable is found, its parts follow one another within the
/// text.
pub proof fn lemma_callable(s: Seq<char>, n: int)
    requires
        callable_at(s, n),
    ensures
        n < word_end(s, n) <= params_open(s, n) < params_close(s, n) < callable_body_open(s, n)
            <= s.len(),
        callable_body_close(s, n) == -1 || callable_body_open(s, n) < callable_body_close(s, n)
            < s.len(),
        params_close(s, n) <= callable_last(s, n) < s.len(),
{
    lemma_skip_forward(s, |c: char| is_word_char(c), n);
    lemma_skip_forward(s, |c: char| is_space(c), word_end(s, n));
    lemma_closing(s, params_open(s, n) + 1, 1, '(', ')');
    lemma_skip_forward(s, |c: char| c != '{' && c != ';', params_close(s, n) + 1);
    let b = callable_body_open(s, n);
    if b < s.len() && s[b] == '{' {
        lemma_closing(s, b + 1, 1, '{', '}');
    }
}

/// Where a class is found, its parts follow one another within the
/// text.
pub proof fn lemma_class(s: Seq<char>, i: int)
    requires
        class_at(s, i),
    ensures
        i + 5 <= class_name_start(s, i) < word_end(s, class_name_start(s, i)) <= class_open(s, i)
            < class_close(s, i) < s.len(),
{
    lemma_skip_forward(s, |c: char| is_space(c), i + 5);
    lemma_skip_forward(s, |c: char| is_word_char(c), class_name_start(s, i));
    lemma_skip_forward(
        s,
        |c: char| c != '{' && c != ';',
        word_end(s, class_name_start(s, i)),
    );
    lemma_closing(s, class_open(s, i) + 1, 1, '{', '}');
}

/// The index behind the name that starts at `from`.
pub fn find_word_end(s: &Vec<char>, from: usize) -> (r: usize)
    requires
        from <= s.len(),
    ensures
        r == word_end(s@, from as int),
        from <= r <= s.len(),
{
    let mut i: usize = from;
    while i < s.len() && is_name_char(s[i])
        invariant
            from <= i <= s.len(),
            word_end(s@, from as int) == word_end(s@, i as int),
        decreases s.len() - i,
    {
        i += 1;
    }
    i
}

/// The index of the first `{` or `;` at or after `from`.
pub fn find_body_open(s: &Vec<char>, from: usize) -> (r: usize)
    requires
        from <= s.len(),
    ensures
        r == body_open(s@, from as int),
        from <= r <= s.len(),
{
    let mut i: usize = from;
    while i < s.len() && s[i] != '{' && s[i] != ';'
        invariant
            from <= i <= s.len(),
            body_open(s@, from as int) == body_open(s@, i as int),
        decreases s.len() - i,
    {
        i += 1;
    }
    i
}

/// The index of the `close` that closes the `open` behind which the
/// scan starts at `from`.
pub fn find_closing(s: &Vec<char>, from: usize, open: char, close: char) -> (r: Option<usize>)
    requires
        0 < from <= s.len(),
    ensures
        match r {
            Some(e) => e == closing(s@, from as int, 1, open, close) && from <= e < s.len(),
            None => closing(s@, from as int, 1, open, close) == -1,
        },
{
    let mut i: usize = from;
    let mut depth: usize = 1;
    while i < s.len()
        invariant
            0 < from <= i <= s.len(),
            1 <= depth <= i - from + 1,
            closing(s@, from as int, 1, open, close) == closing(
                s@,
                i as int,
                depth as nat,
                open,
                close,
            ),
        decreases s.len() - i,
    {
        if s[i] == close {
            if depth <= 1 {
                return Some(i);
            }
            depth -= 1;
        } else if s[i] == open {
            depth += 1;
        }
        i += 1;
    }
    None
}

/// Whether `word` stands at `i` as a keyword.
pub fn is_keyword_at(s: &Vec<char>, i: usize, word: &Vec<char>) -> (r: bool)
    requires
        i < s.len(),
    ensures
        r == keyword_at(s@, i as int, word@),
{
    if !matches_at(s, word, i) {
        return false;
    }
    if i > 0 && is_name_char(s[i - 1]) {
        return false;
    }
    if word.len() >= s.len() - i {
        return false;
    }
    is_whitespace(s[i + word.len()])
}

/// The line, counted from 1, of the character at index `i`.
pub fn line_at_index(s: &Vec<char>, i: usize) -> (r: usize)
    requires
        i <= s.len(),
    ensures
        r == line_of_index(s@, i as int),
{
    let mut feeds: usize = 0;
    let mut k: usize = 0;
    while k < i
        invariant
            k <= i <= s.len(),
            feeds == line_feeds(s@, k as int),
            feeds <= k,
        decreases i - k,
    {
        if s[k] == '\n' {
            feeds += 1;
        }
        k += 1;
    }
    feeds.saturating_add(1)
}

/// The pieces of a parameter list.
pub fn split_pieces(p: &Vec<char>) -> (r: Vec<Vec<char>>)
    ensures
        rows(r@) == pieces_from(p@, 0, 0, 0),
{
    let mut out: Vec<Vec<char>> = Vec::new();
    let mut start: usize = 0;
    let mut i: usize = 0;
    let mut depth: usize = 0;
    assert(rows(out@) + pieces_from(p@, 0, 0, 0) =~= pieces_from(p@, 0, 0, 0));
    while i < p.len()
        invariant
            start <= i <= p.len(),
            depth <= i,
            pieces_from(p@, 0, 0, 0) == rows(out@) + pieces_from(
                p@,
                start as int,
                i as int,
                depth as nat,
            ),
        decreases p.len() - i,
    {
        let c = p[i];
        if c == '(' || c == '[' || c == '{' || c == '<' {
            depth += 1;
        } else if c == ')' || c == ']' || c == '}' || (c == '>' && !(i > 0 && p[i - 1] == '=')) {
            if depth > 0 {
                depth -= 1;
            }
        } else if c == ',' && depth == 0 {
            let ghost before = rows(out@);
            let piece = slice_of(p, start, i);
            out.push(piece);
            assert(rows(out@) =~= before.push(piece@));
            assert(before + (seq![piece@] + pieces_from(p@, i + 1, i + 1, 0)) =~= before.push(
                piece@,
            ) + pieces_from(p@, i + 1, i + 1, 0));
            start = i + 1;
        }
        i += 1;
    }
    let ghost before = rows(out@);
    let piece = slice_of(p, start, p.len());
    out.push(piece);
    assert(rows(out@) =~= before + seq![piece@]);
    out
}

/// Whether a piece of a parameter list gives a default value.
pub fn has_default(piece: &Vec<char>) -> (r: bool)
    ensures
        r == gives_default(piece@),
{
    let mut i: usize = 0;
    while i < piece.len()
        invariant
            i <= piece.len(),
            forall|k: int|
                0 <= k < i ==> !(#[trigger] piece@[k] == '=' && !(k + 1 < piece.len() && piece@[k
                    + 1] == '>')),
        decreases piece.len() - i,
    {
        if piece[i] == '=' && !(i + 1 < piece.len() && piece[i + 1] == '>') {
            return true;
        }
        i += 1;
    }
    false
}

/// The parameter that a piece of a parameter list declares.
pub fn read_parameter(piece: &Vec<char>) -> (r: Option<Parameter>)
    ensures
        match r {
            Some(p) => parameter_in(piece@) == Some(p@),
            None => parameter_in(piece@) is None,
        },
{
    let t = trim(piece);
    if t.len() == 0 {
        return None;
    }
    let mut dots: Vec<char> = Vec::new();
    dots.push('.');
    dots.push('.');
    dots.push('.');
    assert(dots@ =~= rest_marker());
    let rest = starts_with(&t, &dots);
    let named = if rest {
        slice_of(&t, 3, t.len())
    } else {
        slice_of(&t, 0, t.len())
    };
    assert(!rest ==> named@ =~= t@);
    let e = find_word_end(&named, 0);
    let name = if e > 0 {
        slice_of(&named, 0, e)
    } else {
        named
    };
    let form = if rest {
        ParameterForm::Variadic
    } else if has_default(&t) {
        ParameterForm::WithDefault
    } else {
        ParameterForm::Plain
    };
    Some(Parameter { name: text_of(&name), form })
}

/// The parameters that a parameter list declares.
pub fn read_parameters(list: &Vec<char>) -> (r: Vec<Parameter>)
    ensures
        parameter_views(r@) == parameters_in(list@),
{
    let pieces = split_pieces(list);
    let ghost all = rows(pieces@);
    let mut out: Vec<Parameter> = Vec::new();
    let mut i: usize = 0;
    assert(all.take(0) =~= Seq::<Seq<char>>::empty());
    assert(parameter_views(out@) =~= parameters_from(all.take(0)));
    while i < pieces.len()
        invariant
            i <= pieces.len(),
            all == rows(pieces@),
            parameter_views(out@) == parameters_from(all.take(i as int)),
        decreases pieces.len() - i,
    {
        let ghost before = parameter_views(out@);
        assert(all.take(i + 1).drop_last() =~= all.take(i as int));
        assert(all.take(i + 1).last() == pieces@[i as int]@);
        match read_parameter(&pieces[i]) {
            Some(p) => {
                out.push(p);
                assert(parameter_views(out@) =~= before.push(p@));
            },
            None => {},
        }
        i += 1;
    }
    assert(all.take(pieces.len() as int) =~= all);
    out
}

/// The return annotation in the text between the parameters and the
/// body.
pub fn read_annotation(between: &Vec<char>) -> (r: Option<String>)
    ensures
        text_option(r) == annotation_in(between@),
{
    let t = trim(between);
    if t.len() > 0 && t[0] == ':' {
        Some(text_of(&trim(&slice_of(&t, 1, t.len()))))
    } else {
        None
    }
}

/// Whether a name starts at `n` that is followed by parenthesized
/// parameters.
pub fn is_callable_at(s: &Vec<char>, n: usize) -> (r: bool)
    requires
        n <= s.len(),
    ensures
        r == callable_at(s@, n as int),
{
    let e = find_word_end(s, n);
    if e <= n {
        return false;
    }
    let open = skip_spaces(s, e);
    if open >= s.len() || s[open] != '(' {
        return false;
    }
    find_closing(s, open + 1, '(', ')').is_some()
}

/// What the shape of the callable whose name starts at `n` says of it.
pub fn read_callable(s: &Vec<char>, start: usize, n: usize) -> (r: Definition)
    requires
        start <= s.len(),
        callable_at(s@, n as int),
    ensures
        r@ == callable_definition(s@, start as int, n as int),
{
    proof {
        lemma_callable(s@, n as int);
    }
    let e = find_word_end(s, n);
    let open = skip_spaces(s, e);
    let close = match find_closing(s, open + 1, '(', ')') {
        Some(close) => close,
        None => open,
    };
    let body = find_body_open(s, close + 1);
    let last = if body < s.len() && s[body] == '{' {
        match find_closing(s, body + 1, '{', '}') {
            Some(end) => end,
            None => close,
        }
    } else {
        close
    };
    Definition {
        name: text_of(&slice_of(s, n, e)),
        first_line: line_at_index(s, start),
        last_line: line_at_index(s, last),
        parameters: read_parameters(&slice_of(s, open + 1, close)),
        returns: read_annotation(&slice_of(s, close + 1, body)),
        inline_doc: None,
    }
}

/// Whether a name looks like a method by its shape and is none.
pub fn is_reserved_name(name: &Vec<char>) -> (r: bool)
    ensures
        r == is_reserved(name@),
{
    same_text(name, &chars_of("constructor")) || same_text(
        name,
        &chars_of("if"),
    ) || same_text(name, &chars_of("for")) || same_text(
        name,
        &chars_of("while"),
    ) || same_text(name, &chars_of("switch"))
        || same_text(name, &chars_of("catch"))
}

/// Whether a method definition starts at `i` and ends before `end`.
pub fn is_method_at(s: &Vec<char>, i: usize, end: usize) -> (r: bool)
    requires
        i < s.len(),
        end <= s.len(),
    ensures
        r == method_at(s@, i as int, end as int),
{
    if i > 0 && is_name_char(s[i - 1]) {
        return false;
    }
    if !is_callable_at(s, i) {
        return false;
    }
    proof {
        lemma_callable(s@, i as int);
    }
    let e = find_word_end(s, i);
    let open = skip_spaces(s, e);
    let close = match find_closing(s, open + 1, '(', ')') {
        Some(close) => close,
        None => open,
    };
    let body = find_body_open(s, close + 1);
    if body >= s.len() || s[body] != '{' {
        return false;
    }
    match find_closing(s, body + 1, '{', '}') {
        Some(last) => last < end && !is_reserved_name(&slice_of(s, i, e)),
        None => false,
    }
}

/// The methods of the class body that lies between `from` and `end`.
pub fn read_methods(s: &Vec<char>, from: usize, end: usize) -> (r: Vec<Definition>)
    requires
        from <= end <= s.len(),
    ensures
        definition_views(r@) == methods_from(s@, from as int, end as int, 0),
{
    let mut out: Vec<Definition> = Vec::new();
    let mut i: usize = from;
    let mut depth: usize = 0;
    assert(definition_views(out@) + methods_from(s@, from as int, end as int, 0) =~= methods_from(
        s@,
        from as int,
        end as int,
        0,
    ));
    while i < end
        invariant
            from <= i <= end <= s.len(),
            depth <= i,
            methods_from(s@, from as int, end as int, 0) == definition_views(out@) + methods_from(
                s@,
                i as int,
                end as int,
                depth as nat,
            ),
        decreases end - i,
    {
        let c = s[i];
        if c == '{' {
            depth += 1;
            i += 1;
        } else if c == '}' {
            if depth > 0 {
                depth -= 1;
            }
            i += 1;
        } else if depth == 0 && is_method_at(s, i, end) {
            proof {
                lemma_callable(s@, i as int);
            }
            let ghost before = definition_views(out@);
            let method = read_callable(s, i, i);
            let e = find_word_end(s, i);
            let open = skip_spaces(s, e);
            let close = match find_closing(s, open + 1, '(', ')') {
                Some(close) => close,
                None => open,
            };
            let body = find_body_open(s, close + 1);
            out.push(method);
            assert(definition_views(out@) =~= before.push(method@));
            let next: usize = if i < body && body < end {
                body
            } else {
                i + 1
            };
            assert(before + (seq![method@] + methods_from(s@, next as int, end as int, 0))
                =~= before.push(method@) + methods_from(s@, next as int, end as int, 0));
            i = next;
            depth = 0;
        } else {
            i += 1;
        }
    }
    assert(definition_views(out@) + Seq::<DefinitionView>::empty() =~= definition_views(out@));
    out
}

/// The characters of the function keyword.
pub fn function_keyword_chars() -> (r: Vec<char>)
    ensures
        r@ == function_keyword(),
{
    let mut r: Vec<char> = Vec::new();
    r.push('f');
    r.push('u');
    r.push('n');
    r.push('c');
    r.push('t');
    r.push('i');
    r.push('o');
    r.push('n');
    assert(r@ =~= function_keyword());
    r
}

/// The characters of the class keyword.
pub fn class_keyword_chars() -> (r: Vec<char>)
    ensures
        r@ == class_keyword(),
{
    let mut r: Vec<char> = Vec::new();
    r.push('c');
    r.push('l');
    r.push('a');
    r.push('s');
    r.push('s');
    assert(r@ =~= class_keyword());
    r
}

/// Whether a class definition starts at `i`.
pub fn is_class_at(s: &Vec<char>, i: usize) -> (r: bool)
    requires
        i < s.len(),
    ensures
        r == class_at(s@, i as int),
{
    let keyword = class_keyword_chars();
    if !is_keyword_at(s, i, &keyword) {
        return false;
    }
    assert(keyword@.len() == 5);
    let n = skip_spaces(s, i + 5);
    let e = find_word_end(s, n);
    if e <= n {
        return false;
    }
    let open = find_body_open(s, e);
    if open >= s.len() || s[open] != '{' {
        return false;
    }
    find_closing(s, open + 1, '{', '}').is_some()
}

/// The class whose keyword stands at `i`, with its methods.
pub fn read_class(s: &Vec<char>, i: usize) -> (r: Declaration)
    requires
        class_at(s@, i as int),
    ensures
        r@ == DeclarationView::Class(
            class_definition(s@, i as int),
            methods_from(s@, class_open(s@, i as int) + 1, class_close(s@, i as int), 0),
        ),
{
    proof {
        lemma_class(s@, i as int);
        assert(class_keyword().len() == 5);
        assert(i + 5 < s.len());
    }
    let n = skip_spaces(s, i + 5);
    let e = find_word_end(s, n);
    let open = find_body_open(s, e);
    let close = match find_closing(s, open + 1, '{', '}') {
        Some(close) => close,
        None => open + 1,
    };
    let class = Definition {
        name: text_of(&slice_of(s, n, e)),
        first_line: line_at_index(s, i),
        last_line: line_at_index(s, close),
        parameters: Vec::new(),
        returns: None,
        inline_doc: None,
    };
    assert(parameter_views(class.parameters@) =~= Seq::<ParameterView>::empty());
    Declaration::Class(class, read_methods(s, open + 1, close))
}

/// The functions and classes that stand outside all braces of a text,
/// in order, each class with its methods.
pub fn find_declarations(s: &Vec<char>) -> (r: Vec<Declaration>)
    ensures
        declaration_views(r@) == declarations_in(s@),
{
    let keyword = function_keyword_chars();
    let mut out: Vec<Declaration> = Vec::new();
    let mut i: usize = 0;
    let mut depth: usize = 0;
    assert(declaration_views(out@) + declarations_from(s@, 0, 0)
        =~= declarations_from(s@, 0, 0));
    while i < s.len()
        invariant
            i <= s.len(),
            depth <= i,
            keyword@ == function_keyword(),
            declarations_in(s@) == declaration_views(out@) + declarations_from(
                s@,
                i as int,
                depth as nat,
            ),
        decreases s.len() - i,
    {
        let c = s[i];
        let ghost before = declaration_views(out@);
        if c == '{' {
            depth += 1;
        } else if c == '}' {
            if depth > 0 {
                depth -= 1;
            }
        } else if depth == 0 && is_keyword_at(s, i, &keyword) && is_callable_at(
            s,
            skip_spaces(s, i + 8),
        ) {
            assert(function_keyword().len() == 8);
            let function = Declaration::Function(
                read_callable(s, i, skip_spaces(s, i + 8)),
            );
            out.push(function);
            assert(declaration_views(out@) =~= before.push(function@));
            assert(before + (seq![function@] + declarations_from(s@, i + 1, 0)) =~= before.push(
                function@,
            ) + declarations_from(s@, i + 1, 0));
        } else if depth == 0 && is_class_at(s, i) {
            let class = read_class(s, i);
            out.push(class);
            assert(declaration_views(out@) =~= before.push(class@));
            assert(before + (seq![class@] + declarations_from(s@, i + 1, 0)) =~= before.push(
                class@,
            ) + declarations_from(s@, i + 1, 0));
        }
        i += 1;
    }
    assert(declaration_views(out@) + Seq::<DeclarationView>::empty()
        =~= declaration_views(out@));
    out
}

} // verus!
