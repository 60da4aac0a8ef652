//! Syntax analysis by recursive descent: one function for each production
//! of the grammar, each returning the node it built and the number of
//! tokens it consumed, or the first unexpected token.

use crate::compiler::ast::{
    is_sentinel_free, lemma_node_views, lemma_node_views_push, node_views, Node, NodeView,
};
use crate::compiler::grammar::{
    additive, additive_from, arguments, arguments_from, binary_expression, close_from, expression,
    first_of_kind, function_call, function_declaration, function_parameters, is_scaling,
    lemma_close_from, lemma_first_of_kind, lemma_segment_end, matching_close, multiplicative,
    multiplicative_from, parameters_from, primary, program, return_statement, segment_end,
    statement, statements_from, token_at, unexpected, variable_declaration, ParseErrorView, Parsed,
    Production,
};
use crate::compiler::grammar_laws::{
    is_sound, lemma_additive, lemma_expression, lemma_function_call, lemma_function_declaration,
    lemma_function_declaration_body, lemma_multiplicative, lemma_program, lemma_return_statement,
    lemma_statement, lemma_statements_step, lemma_variable_declaration,
};
use crate::compiler::tokenizer::{eof_token, token_views, Token, TokenType};
use crate::enum_utils::enum_weak_equals;
use crate::string_utils::parse_literal;
use vstd::prelude::*;
use vstd::string::*;

verus! {

/// An unexpected token: the production that was being attempted, and the
/// kind and lexeme of the token that was found.
#[derive(Debug)]
pub struct ParseError {
    pub expected_production: Production,
    pub found_kind: TokenType,
    pub found_lexeme: String,
}

impl View for ParseError {
    type V = ParseErrorView;

    open spec fn view(&self) -> ParseErrorView {
        ParseErrorView {
            expected_production: self.expected_production,
            found_kind: self.found_kind,
            found_lexeme: self.found_lexeme@,
        }
    }
}

impl Clone for ParseError {
    fn clone(&self) -> (copy: Self)
        ensures
            copy == *self,
    {
        ParseError {
            expected_production: self.expected_production,
            found_kind: self.found_kind,
            found_lexeme: self.found_lexeme.clone(),
        }
    }
}

impl PartialEq for ParseError {
    fn eq(&self, other: &Self) -> (equal: bool) {
        self.expected_production == other.expected_production && self.found_kind
            == other.found_kind && self.found_lexeme == other.found_lexeme
    }
}

impl vstd::std_specs::cmp::PartialEqSpecImpl for ParseError {
    open spec fn obeys_eq_spec() -> bool {
        true
    }

    open spec fn eq_spec(&self, other: &Self) -> bool {
        self@ == other@
    }
}

/// What a production returns when it succeeds: the number of tokens it
/// consumed, then the node it built.
#[derive(Debug)]
pub struct ParseMessage(pub usize, pub Node);

impl View for ParseMessage {
    type V = Parsed;

    open spec fn view(&self) -> Parsed {
        Parsed { consumed: self.0 as nat, node: self.1@ }
    }
}

/// The outcome of a production, as contracts see it.
pub open spec fn outcome_view(outcome: Result<ParseMessage, ParseError>) -> Result<
    Parsed,
    ParseErrorView,
> {
    match outcome {
        Ok(message) => Ok(message@),
        Err(error) => Err(error@),
    }
}

/// The outcome of parsing a whole tree, as contracts see it.
pub open spec fn tree_view(outcome: Result<Node, ParseError>) -> Result<NodeView, ParseErrorView> {
    match outcome {
        Ok(node) => Ok(node@),
        Err(error) => Err(error@),
    }
}

/// The end-of-input token.
pub fn end_of_input() -> (token: Token)
    ensures
        token@ == eof_token(),
{
    let lexeme = String::from_str("EOF");
    proof {
        reveal_strlit("EOF");
        assert(lexeme@ =~= eof_token().lexeme);
    }
    Token::new(TokenType::EOF, lexeme)
}

/// The kind of the token at position `i`; past the end of the window, that
/// of the end-of-input token.
fn kind_at(tokens: &Vec<Token>, i: usize) -> (kind: TokenType)
    ensures
        kind == token_at(token_views(tokens@), i as int).kind,
{
    if i < tokens.len() {
        tokens[i].kind
    } else {
        TokenType::EOF
    }
}

/// The error for meeting `found` while attempting `expected`.
fn unexpected_token(expected: Production, found: &Token) -> (error: ParseError)
    ensures
        error@ == unexpected(expected, found@),
{
    ParseError {
        expected_production: expected,
        found_kind: found.kind,
        found_lexeme: found.lexeme.clone(),
    }
}

/// The error for meeting the token at position `i` of the window, or its
/// end, while attempting `expected`.
fn unexpected_at(expected: Production, tokens: &Vec<Token>, i: usize) -> (error: ParseError)
    ensures
        error@ == unexpected(expected, token_at(token_views(tokens@), i as int)),
{
    if i < tokens.len() {
        unexpected_token(expected, &tokens[i])
    } else {
        unexpected_token(expected, &end_of_input())
    }
}

/// A copy of the tokens from position `from` up to `to`.
fn token_window(tokens: &Vec<Token>, from: usize, to: usize) -> (window: Vec<Token>)
    requires
        from <= to <= tokens.len(),
    ensures
        token_views(window@) == token_views(tokens@).subrange(from as int, to as int),
        window@.len() == to - from,
{
    let mut window: Vec<Token> = Vec::new();
    let mut i: usize = from;
    while i < to
        invariant
            from <= i <= to <= tokens.len(),
            window@.len() == i - from,
            forall|j: int| 0 <= j < i - from ==> window@[j] == tokens@[from + j],
        decreases to - i,
    {
        window.push(tokens[i].clone());
        i += 1;
    }
    assert(token_views(window@) =~= token_views(tokens@).subrange(from as int, to as int));
    window
}

/// Tells whether the token is spelled `*` or `/`.
fn is_scaling_token(token: &Token) -> (b: bool)
    ensures
        b == is_scaling(token@),
{
    let lexeme = token.lexeme.as_str();
    if lexeme.unicode_len() == 1 {
        let c = lexeme.get_char(0);
        assert(c == '*' ==> lexeme@ =~= seq!['*']);
        assert(c == '/' ==> lexeme@ =~= seq!['/']);
        c == '*' || c == '/'
    } else {
        false
    }
}

/// Reads one token as a primary expression.
pub fn parse_primary(token: &Token) -> (outcome: Result<ParseMessage, ParseError>)
    ensures
        outcome_view(outcome) == primary(token@),
{
    let expr = match token.kind {
        TokenType::NumericLiteral => match parse_literal(token.lexeme.as_str()) {
            Some(value) => Node::NumericLiteral(value),
            None => {
                return Err(unexpected_token(Production::NumericLiteral, token));
            },
        },
        TokenType::Identifier => Node::Identifier(token.lexeme.clone()),
        TokenType::BinaryOperator => Node::BinaryOperator(token.lexeme.clone()),
        _ => Node::Failure,
    };
    if enum_weak_equals(&expr, &Node::Failure) {
        return Err(unexpected_token(Production::Primary, token));
    }
    Ok(ParseMessage(1, expr))
}

/// Builds a binary expression of three nodes. The operator is held to its
/// shape alone: any `BinaryOperator` node will do, whatever its symbol.
/// `at` is the token that the operator was read from; it is reported where
/// the operator is refused.
pub fn parse_binary_expr(left: &Node, operator: &Node, right: &Node, at: &Token) -> (outcome:
    Result<ParseMessage, ParseError>)
    ensures
        outcome_view(outcome) == binary_expression(left@, operator@, right@, at@),
{
    let reference = Node::BinaryOperator(String::from_str("+"));
    if !enum_weak_equals(operator, &reference) {
        return Err(unexpected_token(Production::BinaryOperator, at));
    }
    let binary_expr = Node::BinaryExpression(left.to_box(), operator.to_box(), right.to_box());
    Ok(ParseMessage(3, binary_expr))
}


/// Reads a multiplicative chain from the start of the window: a primary,
/// then every `*` or `/` that follows with one primary more.
pub fn parse_highcalc(tokens: &Vec<Token>) -> (outcome: Result<ParseMessage, ParseError>)
    ensures
        outcome_view(outcome) == multiplicative(token_views(tokens@)),
        outcome matches Ok(message) ==> is_sound(token_views(tokens@), message@),
{
    let ghost window = token_views(tokens@);
    proof {
        lemma_multiplicative(window);
    }
    if tokens.len() == 0 {
        return Err(unexpected_at(Production::Primary, tokens, 0));
    }
    let mut left = match parse_primary(&tokens[0]) {
        Ok(message) => message.1,
        Err(error) => {
            return Err(error);
        },
    };
    let mut consumed: usize = 1;
    while consumed < tokens.len() && is_scaling_token(&tokens[consumed])
        invariant
            window == token_views(tokens@),
            1 <= consumed <= tokens.len(),
            multiplicative(window) == multiplicative_from(window, left@, consumed as nat),
            multiplicative(window) matches Ok(chain) ==> chain.consumed <= tokens.len(),
        decreases tokens.len() - consumed,
    {
        let operator = match parse_primary(&tokens[consumed]) {
            Ok(message) => message.1,
            Err(error) => {
                return Err(error);
            },
        };
        if consumed + 1 >= tokens.len() {
            return Err(unexpected_at(Production::Primary, tokens, consumed + 1));
        }
        let right = match parse_primary(&tokens[consumed + 1]) {
            Ok(message) => message.1,
            Err(error) => {
                return Err(error);
            },
        };
        left = match parse_binary_expr(&left, &operator, &right, &tokens[consumed]) {
            Ok(message) => message.1,
            Err(error) => {
                return Err(error);
            },
        };
        consumed += 2;
    }
    Ok(ParseMessage(consumed, left))
}

/// Reads an additive chain from the start of the window: a multiplicative
/// chain, then every operator that follows with one multiplicative chain
/// more.
pub fn parse_additive(tokens: &Vec<Token>) -> (outcome: Result<ParseMessage, ParseError>)
    ensures
        outcome_view(outcome) == additive(token_views(tokens@)),
        outcome matches Ok(message) ==> is_sound(token_views(tokens@), message@),
{
    let ghost window = token_views(tokens@);
    proof {
        lemma_additive(window);
    }
    let (mut consumed, mut left) = match parse_highcalc(tokens) {
        Ok(message) => (message.0, message.1),
        Err(error) => {
            return Err(error);
        },
    };
    while consumed < tokens.len() && tokens[consumed].kind == TokenType::BinaryOperator
        invariant
            window == token_views(tokens@),
            1 <= consumed <= tokens.len(),
            additive(window) == additive_from(window, left@, consumed as nat),
        decreases tokens.len() - consumed,
    {
        let operator = match parse_primary(&tokens[consumed]) {
            Ok(message) => message.1,
            Err(error) => {
                return Err(error);
            },
        };
        let rest = token_window(tokens, consumed + 1, tokens.len());
        assert(token_views(rest@) == window.skip(consumed as int + 1));
        let right = match parse_highcalc(&rest) {
            Ok(message) => message,
            Err(error) => {
                return Err(error);
            },
        };
        left = match parse_binary_expr(&left, &operator, &right.1, &tokens[consumed]) {
            Ok(message) => message.1,
            Err(error) => {
                return Err(error);
            },
        };
        consumed += 1 + right.0;
    }
    Ok(ParseMessage(consumed, left))
}

/// Looks for the token that closes the bracket which the token at `start`
/// opens: a depth counter goes up on tokens of kind `open` and down on
/// tokens of kind `close`, and the scan stops where it is back at zero.
pub fn find_close(tokens: &Vec<Token>, start: usize, open: TokenType, close: TokenType) -> (found:
    Option<usize>)
    ensures
        match found {
            Some(at) => matching_close(token_views(tokens@), start as int, open, close) == Some(
                at as int,
            ) && start <= at < tokens.len(),
            None => matching_close(token_views(tokens@), start as int, open, close) is None,
        },
{
    let ghost window = token_views(tokens@);
    let mut depth: usize = 0;
    let mut at: usize = start;
    while at < tokens.len()
        invariant
            window == token_views(tokens@),
            start <= at,
            depth <= at - start,
            matching_close(window, start as int, open, close) == close_from(
                window,
                at as int,
                depth as int,
                open,
                close,
            ),
        decreases tokens.len() - at,
    {
        let kind = tokens[at].kind;
        if kind == open {
            depth += 1;
        } else if kind == close {
            if depth == 1 {
                return Some(at);
            }
            if depth == 0 {
                return None;
            }
            depth -= 1;
        }
        at += 1;
    }
    None
}


/// Looks for the end of the argument that begins at `from`: the first comma
/// that stands outside all parentheses and curly brackets, or the end of
/// the window.
pub fn find_segment_end(tokens: &Vec<Token>, from: usize) -> (end: usize)
    requires
        from <= tokens.len(),
    ensures
        end == segment_end(token_views(tokens@), from as int, 0),
        from <= end <= tokens.len(),
{
    let ghost window = token_views(tokens@);
    proof {
        lemma_segment_end(window, from as int, 0);
    }
    let mut depth: i128 = 0;
    let mut at: usize = from;
    while at < tokens.len()
        invariant
            window == token_views(tokens@),
            from <= at <= tokens.len(),
            -(at - from) <= depth <= at - from,
            segment_end(window, from as int, 0) == segment_end(window, at as int, depth as int),
        decreases tokens.len() - at,
    {
        let kind = tokens[at].kind;
        if depth == 0 && kind == TokenType::Comma {
            return at;
        }
        depth +=
        match kind {
            TokenType::OpenParen | TokenType::OpenCurly => 1,
            TokenType::CloseParen | TokenType::CloseCurly => -1,
            _ => 0,
        };
        at += 1;
    }
    at
}

/// Reads an expression from the start of the window: a call where the
/// window begins with an identifier and an opening parenthesis, read up to
/// the parenthesis that closes it, and an additive chain otherwise.
pub fn parse_expression(tokens: &Vec<Token>) -> (outcome: Result<ParseMessage, ParseError>)
    ensures
        outcome_view(outcome) == expression(token_views(tokens@)),
        outcome matches Ok(message) ==> is_sound(token_views(tokens@), message@),
    decreases tokens@.len(), 1nat,
{
    let ghost window = token_views(tokens@);
    proof {
        lemma_expression(window);
    }
    if tokens.len() >= 2 && tokens[0].kind == TokenType::Identifier && tokens[1].kind
        == TokenType::OpenParen {
        return match find_close(tokens, 1, TokenType::OpenParen, TokenType::CloseParen) {
            Some(close) => {
                let call = token_window(tokens, 0, close + 1);
                parse_function_call(&call)
            },
            None => Err(unexpected_at(Production::CloseParen, tokens, tokens.len())),
        };
    }
    parse_additive(tokens)
}

/// Reads a call that fills the window: the callee's name, an opening
/// parenthesis, the arguments, and a closing parenthesis as the last token.
pub fn parse_function_call(tokens: &Vec<Token>) -> (outcome: Result<ParseMessage, ParseError>)
    ensures
        outcome_view(outcome) == function_call(token_views(tokens@)),
        outcome matches Ok(message) ==> is_sound(token_views(tokens@), message@),
    decreases tokens@.len(), 0nat,
{
    let ghost window = token_views(tokens@);
    proof {
        lemma_function_call(window);
    }
    if kind_at(tokens, 0) != TokenType::Identifier {
        return Err(unexpected_at(Production::Identifier, tokens, 0));
    }
    if kind_at(tokens, 1) != TokenType::OpenParen {
        return Err(unexpected_at(Production::OpenParen, tokens, 1));
    }
    if tokens.len() < 3 {
        return Err(unexpected_at(Production::CloseParen, tokens, tokens.len()));
    }
    let last = tokens.len() - 1;
    if tokens[last].kind != TokenType::CloseParen {
        return Err(unexpected_at(Production::CloseParen, tokens, last));
    }
    let function_name = tokens[0].lexeme.clone();
    let arguments_tokens = token_window(tokens, 2, last);
    let arguments = match parse_arguments(&arguments_tokens) {
        Ok(list) => list,
        Err(error) => {
            return Err(error);
        },
    };
    let identifier_node = Node::Identifier(function_name);
    assert(identifier_node@ == NodeView::Identifier(window[0].lexeme));
    Ok(
        ParseMessage(
            tokens.len(),
            Node::FunctionCall(Box::new(identifier_node), Box::new(arguments)),
        ),
    )
}

/// The argument nodes read so far, followed by those still to be read.
pub open spec fn arguments_after(done: Seq<NodeView>, rest: Result<Seq<NodeView>, ParseErrorView>)
    -> Result<NodeView, ParseErrorView> {
    match rest {
        Ok(items) => Ok(NodeView::Arguments(done + items)),
        Err(error) => Err(error),
    }
}

/// Reads the argument list that fills the window: nothing, or one
/// expression up to each comma that stands outside all brackets and one
/// after the last. Each expression has to fill its part of the window.
pub fn parse_arguments(tokens: &Vec<Token>) -> (outcome: Result<Node, ParseError>)
    ensures
        tree_view(outcome) == arguments(token_views(tokens@)),
    decreases tokens@.len() + 1, 0nat,
{
    let ghost window = token_views(tokens@);
    let mut items: Vec<Box<Node>> = Vec::new();
    if tokens.len() == 0 {
        assert(node_views(items@) =~= Seq::<NodeView>::empty());
        return Ok(Node::Arguments(items));
    }
    let mut index: usize = 0;
    proof {
        if let Ok(rest) = arguments_from(window, 0) {
            assert(node_views(items@) + rest =~= rest);
        }
    }
    loop
        invariant
            window == token_views(tokens@),
            index <= tokens.len(),
            arguments(window) == arguments_after(
                node_views(items@),
                arguments_from(window, index as int),
            ),
        decreases tokens.len() - index,
    {
        let end = find_segment_end(tokens, index);
        let segment = token_window(tokens, index, end);
        let ParseMessage(consumed, expr) = match parse_expression(&segment) {
            Ok(message) => message,
            Err(error) => {
                return Err(error);
            },
        };
        if consumed != end - index {
            return Err(unexpected_at(Production::Comma, tokens, index + consumed));
        }
        let ghost old_items = items@;
        let ghost done = node_views(items@);
        items.push(Box::new(expr));
        proof {
            lemma_node_views_push(old_items, items@.last());
            assert(node_views(items@) =~= done + seq![expr@]);
        }
        if end >= tokens.len() {
            return Ok(Node::Arguments(items));
        }
        proof {
            if let Ok(rest) = arguments_from(window, end as int + 1) {
                assert(done + (seq![expr@] + rest) =~= (done + seq![expr@]) + rest);
            }
        }
        index = end + 1;
    }
}


/// Looks for the first token of kind `kind`; gives the length of the window
/// where there is none.
pub fn find_first(tokens: &Vec<Token>, kind: TokenType) -> (at: usize)
    ensures
        at == first_of_kind(token_views(tokens@), kind, 0),
        at <= tokens.len(),
{
    let ghost window = token_views(tokens@);
    let mut at: usize = 0;
    while at < tokens.len() && tokens[at].kind != kind
        invariant
            window == token_views(tokens@),
            at <= tokens.len(),
            first_of_kind(window, kind, 0) == first_of_kind(window, kind, at as int),
        decreases tokens.len() - at,
    {
        at += 1;
    }
    at
}

/// Reads a variable declaration from the start of the window: `let` or
/// `const`, a name, `=`, an expression that fills the window up to the first
/// semicolon, and that semicolon.
pub fn parse_variable_declaration(tokens: &Vec<Token>) -> (outcome: Result<
    ParseMessage,
    ParseError,
>)
    ensures
        outcome_view(outcome) == variable_declaration(token_views(tokens@)),
        outcome matches Ok(message) ==> is_sound(token_views(tokens@), message@),
{
    let ghost window = token_views(tokens@);
    proof {
        reveal(variable_declaration);
        lemma_variable_declaration(window);
    }
    let head = kind_at(tokens, 0);
    if head != TokenType::Let && head != TokenType::Const {
        return Err(unexpected_at(Production::VariableDeclaration, tokens, 0));
    }
    if kind_at(tokens, 1) != TokenType::Identifier {
        return Err(unexpected_at(Production::Identifier, tokens, 1));
    }
    if kind_at(tokens, 2) != TokenType::Equals {
        return Err(unexpected_at(Production::Equals, tokens, 2));
    }
    let declaration_type = Node::DeclarationType(head);
    let var_name = tokens[1].lexeme.clone();
    let semicolon_index = find_first(tokens, TokenType::Semicolon);
    if semicolon_index >= tokens.len() {
        return Err(unexpected_at(Production::Semicolon, tokens, tokens.len()));
    }
    proof {
        lemma_first_of_kind(window, TokenType::Semicolon, 0);
    }
    let value_tokens = token_window(tokens, 3, semicolon_index);
    let ParseMessage(delete_amount, expr_node) = match parse_expression(&value_tokens) {
        Ok(message) => message,
        Err(error) => {
            return Err(error);
        },
    };
    if 3 + delete_amount != semicolon_index {
        return Err(unexpected_at(Production::Semicolon, tokens, 3 + delete_amount));
    }
    assert(declaration_type@ == NodeView::DeclarationType(head));
    let declaration = Node::VariableDeclaration(
        Box::new(declaration_type),
        var_name,
        Box::new(expr_node),
    );
    Ok(ParseMessage(delete_amount + 4, declaration))
}

/// Reads a return statement from the start of the window: `return`, an
/// expression, and a semicolon.
pub fn parse_return(tokens: &Vec<Token>) -> (outcome: Result<ParseMessage, ParseError>)
    ensures
        outcome_view(outcome) == return_statement(token_views(tokens@)),
        outcome matches Ok(message) ==> is_sound(token_views(tokens@), message@),
{
    let ghost window = token_views(tokens@);
    proof {
        reveal(return_statement);
        lemma_return_statement(window);
    }
    if kind_at(tokens, 0) != TokenType::Return {
        return Err(unexpected_at(Production::ReturnStatement, tokens, 0));
    }
    let value_tokens = token_window(tokens, 1, tokens.len());
    assert(token_views(value_tokens@) == window.skip(1));
    let ParseMessage(consumed, expr) = match parse_expression(&value_tokens) {
        Ok(message) => message,
        Err(error) => {
            return Err(error);
        },
    };
    if kind_at(tokens, 1 + consumed) != TokenType::Semicolon {
        return Err(unexpected_at(Production::Semicolon, tokens, 1 + consumed));
    }
    Ok(ParseMessage(consumed + 2, Node::ReturnStatement(Box::new(expr))))
}

/// The views of a sequence of nodes, in order.
pub open spec fn plain_views(nodes: Seq<Node>) -> Seq<NodeView> {
    nodes.map_values(|node: Node| node@)
}

/// The parameter nodes read so far, followed by those still to be read.
pub open spec fn parameters_after(
    done: Seq<NodeView>,
    rest: Result<Seq<NodeView>, ParseErrorView>,
) -> Result<Seq<NodeView>, ParseErrorView> {
    match rest {
        Ok(names) => Ok(done + names),
        Err(error) => Err(error),
    }
}

/// The outcome of reading a parameter list, as contracts see it.
pub open spec fn parameters_view(outcome: Result<(usize, Vec<Node>), ParseError>) -> Result<
    Seq<NodeView>,
    ParseErrorView,
> {
    match outcome {
        Ok(list) => Ok(plain_views(list.1@)),
        Err(error) => Err(error@),
    }
}

/// Reads the parameter list that fills the window: nothing, or names
/// separated by commas. Gives the number of tokens read, which is the
/// length of the window, and one `FunctionParameter` node for each name.
pub fn parse_function_parameters(tokens: &Vec<Token>) -> (outcome: Result<
    (usize, Vec<Node>),
    ParseError,
>)
    ensures
        parameters_view(outcome) == function_parameters(token_views(tokens@)),
        outcome matches Ok(list) ==> list.0 == tokens.len(),
{
    let ghost window = token_views(tokens@);
    let mut params: Vec<Node> = Vec::new();
    if tokens.len() == 0 {
        assert(plain_views(params@) =~= Seq::<NodeView>::empty());
        return Ok((0, params));
    }
    let mut consumed: usize = 0;
    proof {
        if let Ok(names) = parameters_from(window, 0) {
            assert(plain_views(params@) + names =~= names);
        }
    }
    loop
        invariant
            window == token_views(tokens@),
            consumed < tokens.len(),
            function_parameters(window) == parameters_after(
                plain_views(params@),
                parameters_from(window, consumed as int),
            ),
        decreases tokens.len() - consumed,
    {
        if tokens[consumed].kind != TokenType::Identifier {
            return Err(unexpected_at(Production::Identifier, tokens, consumed));
        }
        let name = tokens[consumed].lexeme.clone();
        let ghost done = plain_views(params@);
        let ghost parameter = NodeView::FunctionParameter(name@);
        params.push(Node::FunctionParameter(name));
        assert(plain_views(params@) =~= done + seq![parameter]);
        if consumed >= tokens.len() - 1 {
            consumed += 1;
            return Ok((consumed, params));
        }
        if tokens[consumed + 1].kind != TokenType::Comma {
            return Err(unexpected_at(Production::Comma, tokens, consumed + 1));
        }
        if consumed + 2 >= tokens.len() {
            return Err(unexpected_at(Production::Identifier, tokens, consumed + 2));
        }
        proof {
            if let Ok(names) = parameters_from(window, consumed as int + 2) {
                assert(done + (seq![parameter] + names) =~= (done + seq![parameter]) + names);
            }
        }
        consumed += 2;
    }
}

/// Boxed copies of `nodes`, in order.
fn box_nodes(nodes: &Vec<Node>) -> (boxes: Vec<Box<Node>>)
    ensures
        node_views(boxes@) == plain_views(nodes@),
{
    let mut boxes: Vec<Box<Node>> = Vec::new();
    let mut i: usize = 0;
    while i < nodes.len()
        invariant
            i <= nodes.len(),
            boxes@.len() == i,
            forall|j: int| 0 <= j < i ==> (*boxes@[j])@ == nodes@[j]@,
        decreases nodes.len() - i,
    {
        boxes.push(nodes[i].to_box());
        i += 1;
    }
    proof {
        lemma_node_views(boxes@);
        assert(node_views(boxes@) =~= plain_views(nodes@));
    }
    boxes
}


/// Reads a function declaration from the start of the window: `function`,
/// a name, the parameters between parentheses, and the body between curly
/// brackets. Each closing bracket is found by counting depth. The body is
/// parsed on its own, as a program closed by an end-of-input token of its
/// own.
#[verifier::rlimit(100)]
pub fn parse_function_declaration(tokens: &Vec<Token>) -> (outcome: Result<
    ParseMessage,
    ParseError,
>)
    ensures
        outcome_view(outcome) == function_declaration(token_views(tokens@)),
        outcome matches Ok(message) ==> is_sound(token_views(tokens@), message@),
    decreases tokens@.len(), 1nat,
{
    let ghost window = token_views(tokens@);
    proof {
            lemma_function_declaration(window);
    }
    if kind_at(tokens, 0) != TokenType::Function {
        return Err(unexpected_at(Production::FunctionDeclaration, tokens, 0));
    }
    if kind_at(tokens, 1) != TokenType::Identifier {
        return Err(unexpected_at(Production::Identifier, tokens, 1));
    }
    if kind_at(tokens, 2) != TokenType::OpenParen {
        return Err(unexpected_at(Production::OpenParen, tokens, 2));
    }
    let function_name = tokens[1].lexeme.clone();
    let close_paren = match find_close(tokens, 2, TokenType::OpenParen, TokenType::CloseParen) {
        Some(at) => at,
        None => {
            return Err(unexpected_at(Production::CloseParen, tokens, tokens.len()));
        },
    };
    proof {
        lemma_close_from(window, 2, 0, TokenType::OpenParen, TokenType::CloseParen);
    }
    let parameter_tokens = token_window(tokens, 3, close_paren);
    let (consumed_params_tokens, params) = match parse_function_parameters(&parameter_tokens) {
        Ok(list) => list,
        Err(error) => {
            return Err(error);
        },
    };
    if kind_at(tokens, close_paren + 1) != TokenType::OpenCurly {
        return Err(unexpected_at(Production::OpenCurly, tokens, close_paren + 1));
    }
    let close_curly = match find_close(
        tokens,
        close_paren + 1,
        TokenType::OpenCurly,
        TokenType::CloseCurly,
    ) {
        Some(at) => at,
        None => {
            return Err(unexpected_at(Production::CloseCurly, tokens, tokens.len()));
        },
    };
    proof {
        assert(parameters_view(Ok((consumed_params_tokens, params))) == function_parameters(
            window.subrange(3, close_paren as int),
        ));
        lemma_function_declaration_body(window, close_paren as int, close_curly as int);
        assert(consumed_params_tokens == close_paren - 3);
    }
    let mut function_tokens = token_window(tokens, consumed_params_tokens + 5, close_curly);
    let ghost body_window = token_views(function_tokens@);
    function_tokens.push(end_of_input());
    assert(token_views(function_tokens@) =~= body_window.push(eof_token()));
    let code_token_count = function_tokens.len();
    assert(code_token_count == close_curly - close_paren - 1);
    let function_code = match parse(function_tokens) {
        Ok(tree) => tree,
        Err(error) => {
            return Err(error);
        },
    };
    let boxed_params = box_nodes(&params);
    let declaration_node = Node::FunctionDeclaration(
        function_name,
        boxed_params,
        Box::new(function_code),
    );
    assert(declaration_node@ == NodeView::FunctionDeclaration(
        window[1].lexeme,
        plain_views(params@),
        Box::new(function_code@),
    ));
    Ok(ParseMessage(consumed_params_tokens + code_token_count + 5, declaration_node))
}

/// Reads one statement from the start of the window, chosen by the kind of
/// its first token. A lone semicolon is a statement of its own and yields
/// `Ignore`.
pub fn parse_statement(tokens: &Vec<Token>) -> (outcome: Result<ParseMessage, ParseError>)
    ensures
        outcome_view(outcome) == statement(token_views(tokens@)),
        outcome matches Ok(message) ==> 1 <= message.0 <= tokens.len() && (message.1@ is Ignore
            || is_sentinel_free(message.1@)),
    decreases tokens@.len(), 2nat,
{
    proof {
            lemma_statement(token_views(tokens@));
    }
    match kind_at(tokens, 0) {
        TokenType::Let | TokenType::Const => parse_variable_declaration(tokens),
        TokenType::Function => parse_function_declaration(tokens),
        TokenType::Semicolon => Ok(ParseMessage(1, Node::Ignore)),
        TokenType::Identifier => parse_expression(tokens),
        TokenType::Return => parse_return(tokens),
        _ => Err(unexpected_at(Production::Statement, tokens, 0)),
    }
}

/// The statement nodes read so far, followed by those still to be read, as
/// one program.
pub open spec fn program_after(done: Seq<NodeView>, rest: Result<Seq<NodeView>, ParseErrorView>)
    -> Result<NodeView, ParseErrorView> {
    match rest {
        Ok(body) => Ok(NodeView::Program(done + body)),
        Err(error) => Err(error),
    }
}

/// Parses a token sequence into a `Program` node: statement after
/// statement, until the next token is the end-of-input token or the
/// sequence is used up. Statements that yield `Ignore` are left out. The
/// first unexpected token ends the parse, and no tree is returned.
pub fn parse(tokens: Vec<Token>) -> (outcome: Result<Node, ParseError>)
    ensures
        tree_view(outcome) == program(token_views(tokens@)),
        outcome matches Ok(tree) ==> tree@ is Program && is_sentinel_free(tree@),
    decreases tokens@.len(), 4nat,
{
    let ghost all = token_views(tokens@);
    proof {
        lemma_program(all);
    }
    let mut rest = tokens;
    let mut statements: Vec<Box<Node>> = Vec::new();
    let ghost mut pos: int = 0;
    proof {
        assert(all.skip(0) =~= all);
        if let Ok(body) = statements_from(all, 0) {
            assert(node_views(statements@) + body =~= body);
        }
    }
    while kind_at(&rest, 0) != TokenType::EOF
        invariant
            0 <= pos <= all.len(),
            all == token_views(tokens@),
            token_views(rest@) == all.skip(pos),
            program(all) == program_after(node_views(statements@), statements_from(all, pos)),
        decreases rest@.len(),
    {
        proof {
            assert(token_at(all.skip(pos), 0) == token_at(all, pos));
            lemma_statements_step(all, pos);
        }
        let ParseMessage(delete_amount, result) = match parse_statement(&rest) {
            Ok(message) => message,
            Err(error) => {
                return Err(error);
            },
        };
        let ghost before = rest@;
        let remaining = rest.split_off(delete_amount);
        rest = remaining;
        let ghost done = node_views(statements@);
        let ghost view = result@;
        if !enum_weak_equals(&result, &Node::Ignore) {
            proof {
                lemma_node_views_push(statements@, Box::new(result));
            }
            statements.push(Box::new(result));
        }
        proof {
            assert(rest@ == before.subrange(delete_amount as int, before.len() as int));
            assert(token_views(before) == all.skip(pos));
            assert forall|i: int| 0 <= i < rest@.len() implies token_views(rest@)[i] == all.skip(
                pos + delete_amount,
            )[i] by {
                assert(token_views(before)[delete_amount + i] == before[delete_amount + i]@);
                assert(all.skip(pos)[delete_amount + i] == all[pos + delete_amount + i]);
            }
            assert(token_views(rest@) =~= all.skip(pos + delete_amount));
            if let Ok(body) = statements_from(all, pos + delete_amount) {
                if !(view is Ignore) {
                    assert(done + (seq![view] + body) =~= done.push(view) + body);
                }
            }
            pos = pos + delete_amount;
        }
    }
    Ok(Node::Program(statements))
}

} // verus!
