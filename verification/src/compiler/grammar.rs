//! The grammar as a mathematical model: what each production reads from a
//! window of tokens, how many of them it consumes, and when it fails.
//!
//! A window is self-contained. Reading past its end yields the end-of-input
//! token, so a production that runs out of tokens reports that token.

use crate::compiler::ast::NodeView;
use crate::compiler::tokenizer::{eof_token, TokenType, TokenView};
use crate::string_utils::literal_value;
use vstd::prelude::*;

verus! {

/// What the parser was looking for when it met a token it could not use.
#[derive(Clone, Copy, Debug, PartialEq, Eq, Structural)]
pub enum Production {
    Statement,
    VariableDeclaration,
    FunctionDeclaration,
    ReturnStatement,
    Primary,
    NumericLiteral,
    BinaryOperator,
    Identifier,
    Equals,
    Semicolon,
    Comma,
    OpenParen,
    CloseParen,
    OpenCurly,
    CloseCurly,
}

/// An unexpected token, as contracts see it: the production that
/// was being attempted, and the kind and lexeme of the token found.
pub ghost struct ParseErrorView {
    pub expected_production: Production,
    pub found_kind: TokenType,
    pub found_lexeme: Seq<char>,
}

/// The outcome of a production that succeeded: the number of tokens it
/// consumed and the node it built.
pub ghost struct Parsed {
    pub consumed: nat,
    pub node: NodeView,
}

/// The token at position `i` of a window; past the end, the end-of-input
/// token.
pub open spec fn token_at(tokens: Seq<TokenView>, i: int) -> TokenView {
    if 0 <= i < tokens.len() {
        tokens[i]
    } else {
        eof_token()
    }
}

/// The error for meeting `found` while attempting `expected`.
pub open spec fn unexpected(expected: Production, found: TokenView) -> ParseErrorView {
    ParseErrorView {
        expected_production: expected,
        found_kind: found.kind,
        found_lexeme: found.lexeme,
    }
}

/// A primary expression: a numeric literal that fits in 32 bits, an
/// identifier, or an operator symbol standing alone.
pub open spec fn primary(token: TokenView) -> Result<Parsed, ParseErrorView> {
    match token.kind {
        TokenType::NumericLiteral => match literal_value(token.lexeme) {
            Some(value) => Ok(Parsed { consumed: 1, node: NodeView::NumericLiteral(value) }),
            None => Err(unexpected(Production::NumericLiteral, token)),
        },
        TokenType::Identifier => Ok(Parsed { consumed: 1, node: NodeView::Identifier(token.lexeme) }),
        TokenType::BinaryOperator => Ok(
            Parsed { consumed: 1, node: NodeView::BinaryOperator(token.lexeme) },
        ),
        _ => Err(unexpected(Production::Primary, token)),
    }
}

/// A binary expression of three nodes. The operator is held to its shape
/// alone: any `BinaryOperator` node is accepted, whatever symbol it carries.
/// `at` is the token the operator was read from.
pub open spec fn binary_expression(
    left: NodeView,
    operator: NodeView,
    right: NodeView,
    at: TokenView,
) -> Result<Parsed, ParseErrorView> {
    if operator is BinaryOperator {
        Ok(
            Parsed {
                consumed: 3,
                node: NodeView::BinaryExpression(
                    Box::new(left),
                    Box::new(operator),
                    Box::new(right),
                ),
            },
        )
    } else {
        Err(unexpected(Production::BinaryOperator, at))
    }
}

/// The token is spelled `*` or `/`.
pub open spec fn is_scaling(token: TokenView) -> bool {
    token.lexeme == seq!['*'] || token.lexeme == seq!['/']
}

/// The rest of a multiplicative chain: `left` stands for the first
/// `consumed` tokens, and every `*` or `/` that follows takes one more
/// primary as its right operand.
pub open spec fn multiplicative_from(tokens: Seq<TokenView>, left: NodeView, consumed: nat) -> Result<
    Parsed,
    ParseErrorView,
>
    decreases tokens.len() - consumed,
{
    if consumed < tokens.len() && is_scaling(tokens[consumed as int]) {
        match primary(tokens[consumed as int]) {
            Err(error) => Err(error),
            Ok(operator) => match primary(token_at(tokens, consumed as int + 1)) {
                Err(error) => Err(error),
                Ok(right) => match binary_expression(
                    left,
                    operator.node,
                    right.node,
                    tokens[consumed as int],
                ) {
                    Err(error) => Err(error),
                    Ok(product) => multiplicative_from(tokens, product.node, consumed + 2),
                },
            },
        }
    } else {
        Ok(Parsed { consumed, node: left })
    }
}

/// A multiplicative chain: a primary, then any number of `*` or `/` each
/// with a primary, grouped from the left.
pub open spec fn multiplicative(tokens: Seq<TokenView>) -> Result<Parsed, ParseErrorView> {
    match primary(token_at(tokens, 0)) {
        Err(error) => Err(error),
        Ok(first) => multiplicative_from(tokens, first.node, 1),
    }
}

/// A multiplicative chain that is read on consumes at least what was
/// consumed before, and no more than the window holds.
pub proof fn lemma_multiplicative_from_consumed(
    tokens: Seq<TokenView>,
    left: NodeView,
    consumed: nat,
)
    requires
        consumed <= tokens.len(),
    ensures
        multiplicative_from(tokens, left, consumed) matches Ok(chain) ==> consumed
            <= chain.consumed <= tokens.len(),
    decreases tokens.len() - consumed,
{
    if consumed < tokens.len() && is_scaling(tokens[consumed as int]) {
        if let Ok(operator) = primary(tokens[consumed as int]) {
            if let Ok(right) = primary(token_at(tokens, consumed as int + 1)) {
                if let Ok(product) = binary_expression(
                    left,
                    operator.node,
                    right.node,
                    tokens[consumed as int],
                ) {
                    lemma_multiplicative_from_consumed(tokens, product.node, consumed + 2);
                }
            }
        }
    }
}

/// A multiplicative chain consumes one token at least, and no more than
/// the window holds.
pub proof fn lemma_multiplicative_consumed(tokens: Seq<TokenView>)
    ensures
        multiplicative(tokens) matches Ok(chain) ==> 1 <= chain.consumed <= tokens.len(),
{
    if let Ok(first) = primary(token_at(tokens, 0)) {
        lemma_multiplicative_from_consumed(tokens, first.node, 1);
    }
}

/// The rest of an additive chain: `left` stands for the first `consumed`
/// tokens, and every operator token that follows takes one more
/// multiplicative chain as its right operand.
pub open spec fn additive_from(tokens: Seq<TokenView>, left: NodeView, consumed: nat) -> Result<
    Parsed,
    ParseErrorView,
>
    decreases tokens.len() - consumed,
{
    if consumed < tokens.len() && tokens[consumed as int].kind == TokenType::BinaryOperator {
        match primary(tokens[consumed as int]) {
            Err(error) => Err(error),
            Ok(operator) => match multiplicative(tokens.skip(consumed as int + 1)) {
                Err(error) => Err(error),
                Ok(right) => match binary_expression(
                    left,
                    operator.node,
                    right.node,
                    tokens[consumed as int],
                ) {
                    Err(error) => Err(error),
                    Ok(sum) => {
                        proof {
                            lemma_multiplicative_consumed(tokens.skip(consumed as int + 1));
                        }
                        additive_from(tokens, sum.node, consumed + 1 + right.consumed)
                    },
                },
            },
        }
    } else {
        Ok(Parsed { consumed, node: left })
    }
}

/// An additive chain: multiplicative chains joined by operators, grouped
/// from the left. Multiplication and division bind tighter than the rest.
pub open spec fn additive(tokens: Seq<TokenView>) -> Result<Parsed, ParseErrorView> {
    match multiplicative(tokens) {
        Err(error) => Err(error),
        Ok(first) => additive_from(tokens, first.node, first.consumed),
    }
}

/// The position of the token that closes the bracket opened before `at`:
/// `depth` brackets are open there, tokens of kind `open` open one more and
/// tokens of kind `close` close the innermost. `None` where the window ends
/// first, or where a token closes a bracket while none is open.
pub open spec fn close_from(
    tokens: Seq<TokenView>,
    at: int,
    depth: int,
    open: TokenType,
    close: TokenType,
) -> Option<int>
    decreases tokens.len() - at,
{
    if at < 0 || at >= tokens.len() {
        None
    } else if tokens[at].kind == open {
        close_from(tokens, at + 1, depth + 1, open, close)
    } else if tokens[at].kind == close {
        if depth == 1 {
            Some(at)
        } else if depth > 1 {
            close_from(tokens, at + 1, depth - 1, open, close)
        } else {
            None
        }
    } else {
        close_from(tokens, at + 1, depth, open, close)
    }
}

/// The position of the token that closes the bracket which the token at
/// `start` opens.
pub open spec fn matching_close(
    tokens: Seq<TokenView>,
    start: int,
    open: TokenType,
    close: TokenType,
) -> Option<int> {
    close_from(tokens, start, 0, open, close)
}

/// A closing token that is found lies inside the window, at or after the
/// position where the search began.
pub proof fn lemma_close_from(
    tokens: Seq<TokenView>,
    at: int,
    depth: int,
    open: TokenType,
    close: TokenType,
)
    ensures
        close_from(tokens, at, depth, open, close) matches Some(found) ==> at <= found
            < tokens.len() && 0 <= found && tokens[found].kind == close,
    decreases tokens.len() - at,
{
    if at < 0 || at >= tokens.len() {
    } else if tokens[at].kind == open {
        lemma_close_from(tokens, at + 1, depth + 1, open, close);
    } else if tokens[at].kind == close {
        if depth > 1 {
            lemma_close_from(tokens, at + 1, depth - 1, open, close);
        }
    } else {
        lemma_close_from(tokens, at + 1, depth, open, close);
    }
}

/// The position of the first token of kind `kind` at or after `from`; the
/// length of the window where there is none.
pub open spec fn first_of_kind(tokens: Seq<TokenView>, kind: TokenType, from: int) -> int
    decreases tokens.len() - from,
{
    if from < 0 || from >= tokens.len() {
        tokens.len() as int
    } else if tokens[from].kind == kind {
        from
    } else {
        first_of_kind(tokens, kind, from + 1)
    }
}

/// The first token of a kind is that of the least position, if any.
pub proof fn lemma_first_of_kind(tokens: Seq<TokenView>, kind: TokenType, from: int)
    requires
        0 <= from,
    ensures
        from <= first_of_kind(tokens, kind, from) || first_of_kind(tokens, kind, from)
            == tokens.len(),
        first_of_kind(tokens, kind, from) <= tokens.len(),
        first_of_kind(tokens, kind, from) < tokens.len() ==> tokens[first_of_kind(
            tokens,
            kind,
            from,
        )].kind == kind,
        forall|i: int|
            from <= i < first_of_kind(tokens, kind, from) ==> (#[trigger] tokens[i]).kind != kind,
    decreases tokens.len() - from,
{
    if from < tokens.len() && tokens[from].kind != kind {
        lemma_first_of_kind(tokens, kind, from + 1);
    }
}

/// By how much a token of kind `kind` changes the nesting depth inside an
/// argument list.
pub open spec fn nesting_step(kind: TokenType) -> int {
    match kind {
        TokenType::OpenParen | TokenType::OpenCurly => 1,
        TokenType::CloseParen | TokenType::CloseCurly => -1,
        _ => 0,
    }
}

/// Where the argument that is being read at `at`, `depth` brackets deep,
/// ends: at the first comma outside all brackets, or with the window.
pub open spec fn segment_end(tokens: Seq<TokenView>, at: int, depth: int) -> int
    decreases tokens.len() - at,
{
    if at < 0 || at >= tokens.len() {
        tokens.len() as int
    } else if depth == 0 && tokens[at].kind == TokenType::Comma {
        at
    } else {
        segment_end(tokens, at + 1, depth + nesting_step(tokens[at].kind))
    }
}

/// An argument ends inside the window, at or after the position where it
/// begins.
pub proof fn lemma_segment_end(tokens: Seq<TokenView>, at: int, depth: int)
    requires
        0 <= at <= tokens.len(),
    ensures
        at <= segment_end(tokens, at, depth) <= tokens.len(),
        segment_end(tokens, at, depth) < tokens.len() ==> tokens[segment_end(
            tokens,
            at,
            depth,
        )].kind == TokenType::Comma,
    decreases tokens.len() - at,
{
    if at < tokens.len() && !(depth == 0 && tokens[at].kind == TokenType::Comma) {
        lemma_segment_end(tokens, at + 1, depth + nesting_step(tokens[at].kind));
    }
}

/// The window begins like a call: an identifier followed by an opening
/// parenthesis.
pub open spec fn is_call_start(tokens: Seq<TokenView>) -> bool {
    tokens.len() >= 2 && tokens[0].kind == TokenType::Identifier && tokens[1].kind
        == TokenType::OpenParen
}

/// An expression: a call where the window begins like one, read up to the
/// parenthesis that closes it, and an additive chain otherwise.
pub open spec fn expression(tokens: Seq<TokenView>) -> Result<Parsed, ParseErrorView>
    decreases tokens.len(), 1nat,
{
    if is_call_start(tokens) {
        match matching_close(tokens, 1, TokenType::OpenParen, TokenType::CloseParen) {
            Some(close) => {
                proof {
                    lemma_close_from(tokens, 1, 0, TokenType::OpenParen, TokenType::CloseParen);
                }
                function_call(tokens.subrange(0, close + 1))
            },
            None => Err(unexpected(Production::CloseParen, eof_token())),
        }
    } else {
        additive(tokens)
    }
}

/// A call that fills its window: the callee's name, an opening parenthesis,
/// the arguments, and a closing parenthesis as the last token.
pub open spec fn function_call(tokens: Seq<TokenView>) -> Result<Parsed, ParseErrorView>
    decreases tokens.len(), 0nat,
{
    if token_at(tokens, 0).kind != TokenType::Identifier {
        Err(unexpected(Production::Identifier, token_at(tokens, 0)))
    } else if token_at(tokens, 1).kind != TokenType::OpenParen {
        Err(unexpected(Production::OpenParen, token_at(tokens, 1)))
    } else if tokens.len() < 3 {
        Err(unexpected(Production::CloseParen, eof_token()))
    } else if tokens.last().kind != TokenType::CloseParen {
        Err(unexpected(Production::CloseParen, tokens.last()))
    } else {
        match arguments(tokens.subrange(2, tokens.len() - 1)) {
            Err(error) => Err(error),
            Ok(list) => Ok(
                Parsed {
                    consumed: tokens.len(),
                    node: NodeView::FunctionCall(
                        Box::new(NodeView::Identifier(tokens[0].lexeme)),
                        Box::new(list),
                    ),
                },
            ),
        }
    }
}

/// The arguments of a call, from position `from` of the window on: one
/// expression up to each comma outside all brackets, and one after the last.
/// Each expression has to fill its part of the window.
pub open spec fn arguments_from(tokens: Seq<TokenView>, from: int) -> Result<
    Seq<NodeView>,
    ParseErrorView,
>
    decreases tokens.len() + 1, tokens.len() - from,
{
    if from < 0 || from > tokens.len() {
        Ok(Seq::empty())
    } else {
        let end = segment_end(tokens, from, 0);
        proof {
            lemma_segment_end(tokens, from, 0);
        }
        match expression(tokens.subrange(from, end)) {
            Err(error) => Err(error),
            Ok(first) => if from + first.consumed != end {
                Err(unexpected(Production::Comma, token_at(tokens, from + first.consumed)))
            } else if end >= tokens.len() {
                Ok(seq![first.node])
            } else {
                match arguments_from(tokens, end + 1) {
                    Err(error) => Err(error),
                    Ok(rest) => Ok(seq![first.node] + rest),
                }
            },
        }
    }
}

/// The argument list that fills the window: nothing, or expressions
/// separated by the commas that stand outside all brackets.
pub open spec fn arguments(tokens: Seq<TokenView>) -> Result<NodeView, ParseErrorView>
    decreases tokens.len() + 1, tokens.len() + 1,
{
    if tokens.len() == 0 {
        Ok(NodeView::Arguments(Seq::empty()))
    } else {
        match arguments_from(tokens, 0) {
            Err(error) => Err(error),
            Ok(items) => Ok(NodeView::Arguments(items)),
        }
    }
}

/// A variable declaration: `let` or `const`, a name, `=`, an expression that
/// fills the window up to the first semicolon, and that semicolon.
#[verifier::opaque]
pub open spec fn variable_declaration(tokens: Seq<TokenView>) -> Result<Parsed, ParseErrorView> {
    let head = token_at(tokens, 0);
    if head.kind != TokenType::Let && head.kind != TokenType::Const {
        Err(unexpected(Production::VariableDeclaration, head))
    } else if token_at(tokens, 1).kind != TokenType::Identifier {
        Err(unexpected(Production::Identifier, token_at(tokens, 1)))
    } else if token_at(tokens, 2).kind != TokenType::Equals {
        Err(unexpected(Production::Equals, token_at(tokens, 2)))
    } else {
        let semicolon = first_of_kind(tokens, TokenType::Semicolon, 0);
        if semicolon >= tokens.len() {
            Err(unexpected(Production::Semicolon, eof_token()))
        } else {
            match expression(tokens.subrange(3, semicolon)) {
                Err(error) => Err(error),
                Ok(value) => if 3 + value.consumed != semicolon {
                    Err(unexpected(Production::Semicolon, token_at(tokens, 3 + value.consumed as int)))
                } else {
                    Ok(
                        Parsed {
                            consumed: (semicolon + 1) as nat,
                            node: NodeView::VariableDeclaration(
                                Box::new(NodeView::DeclarationType(head.kind)),
                                tokens[1].lexeme,
                                Box::new(value.node),
                            ),
                        },
                    )
                },
            }
        }
    }
}

/// A return statement: `return`, an expression, and a semicolon.
#[verifier::opaque]
pub open spec fn return_statement(tokens: Seq<TokenView>) -> Result<Parsed, ParseErrorView> {
    let head = token_at(tokens, 0);
    if head.kind != TokenType::Return {
        Err(unexpected(Production::ReturnStatement, head))
    } else {
        match expression(tokens.skip(1)) {
            Err(error) => Err(error),
            Ok(value) => if token_at(tokens, 1 + value.consumed as int).kind != TokenType::Semicolon {
                Err(unexpected(Production::Semicolon, token_at(tokens, 1 + value.consumed as int)))
            } else {
                Ok(
                    Parsed {
                        consumed: value.consumed + 2,
                        node: NodeView::ReturnStatement(Box::new(value.node)),
                    },
                )
            },
        }
    }
}

/// The parameters from position `from` of the window on: a name, then
/// nothing more, or a comma and the parameters after it.
pub open spec fn parameters_from(tokens: Seq<TokenView>, from: int) -> Result<
    Seq<NodeView>,
    ParseErrorView,
>
    decreases tokens.len() - from,
{
    if token_at(tokens, from).kind != TokenType::Identifier {
        Err(unexpected(Production::Identifier, token_at(tokens, from)))
    } else if from + 1 >= tokens.len() {
        Ok(seq![NodeView::FunctionParameter(token_at(tokens, from).lexeme)])
    } else if tokens[from + 1].kind != TokenType::Comma {
        Err(unexpected(Production::Comma, tokens[from + 1]))
    } else {
        match parameters_from(tokens, from + 2) {
            Err(error) => Err(error),
            Ok(rest) => Ok(seq![NodeView::FunctionParameter(token_at(tokens, from).lexeme)] + rest),
        }
    }
}

/// The parameter list that fills the window: nothing, or names separated by
/// commas.
pub open spec fn function_parameters(tokens: Seq<TokenView>) -> Result<
    Seq<NodeView>,
    ParseErrorView,
> {
    if tokens.len() == 0 {
        Ok(Seq::empty())
    } else {
        parameters_from(tokens, 0)
    }
}

/// A function declaration: `function`, a name, the parameters between
/// parentheses, and the body between curly brackets. The body is parsed on
/// its own, as a program closed by an end-of-input token of its own.
pub open spec fn function_declaration(tokens: Seq<TokenView>) -> Result<Parsed, ParseErrorView>
    decreases tokens.len(), 1nat,
{
    let head = token_at(tokens, 0);
    if head.kind != TokenType::Function {
        Err(unexpected(Production::FunctionDeclaration, head))
    } else if token_at(tokens, 1).kind != TokenType::Identifier {
        Err(unexpected(Production::Identifier, token_at(tokens, 1)))
    } else if token_at(tokens, 2).kind != TokenType::OpenParen {
        Err(unexpected(Production::OpenParen, token_at(tokens, 2)))
    } else {
        match matching_close(tokens, 2, TokenType::OpenParen, TokenType::CloseParen) {
            None => Err(unexpected(Production::CloseParen, eof_token())),
            Some(close_paren) => match function_parameters(tokens.subrange(3, close_paren)) {
                Err(error) => Err(error),
                Ok(parameters) => if token_at(tokens, close_paren + 1).kind
                    != TokenType::OpenCurly {
                    Err(unexpected(Production::OpenCurly, token_at(tokens, close_paren + 1)))
                } else {
                    match matching_close(
                        tokens,
                        close_paren + 1,
                        TokenType::OpenCurly,
                        TokenType::CloseCurly,
                    ) {
                        None => Err(unexpected(Production::CloseCurly, eof_token())),
                        Some(close_curly) => {
                            proof {
                                lemma_close_from(
                                    tokens,
                                    2,
                                    0,
                                    TokenType::OpenParen,
                                    TokenType::CloseParen,
                                );
                                lemma_close_from(
                                    tokens,
                                    close_paren + 1,
                                    0,
                                    TokenType::OpenCurly,
                                    TokenType::CloseCurly,
                                );
                            }
                            match program(
                                tokens.subrange(close_paren + 2, close_curly).push(eof_token()),
                            ) {
                                Err(error) => Err(error),
                                Ok(body) => Ok(
                                    Parsed {
                                        consumed: (close_curly + 1) as nat,
                                        node: NodeView::FunctionDeclaration(
                                            tokens[1].lexeme,
                                            parameters,
                                            Box::new(body),
                                        ),
                                    },
                                ),
                            }
                        },
                    }
                },
            },
        }
    }
}

/// One statement, chosen by the kind of the window's first token. A lone
/// semicolon is a statement of its own and yields `Ignore`.
pub open spec fn statement(tokens: Seq<TokenView>) -> Result<Parsed, ParseErrorView>
    decreases tokens.len(), 2nat,
{
    match token_at(tokens, 0).kind {
        TokenType::Let | TokenType::Const => variable_declaration(tokens),
        TokenType::Function => function_declaration(tokens),
        TokenType::Semicolon => Ok(Parsed { consumed: 1, node: NodeView::Ignore }),
        TokenType::Identifier => expression(tokens),
        TokenType::Return => return_statement(tokens),
        _ => Err(unexpected(Production::Statement, token_at(tokens, 0))),
    }
}

/// The statements from position `pos` up to the first end-of-input token
/// that stands where a statement would begin. Statements that yield `Ignore`
/// are left out. A statement that consumed nothing would be an error.
pub open spec fn statements_from(tokens: Seq<TokenView>, pos: int) -> Result<
    Seq<NodeView>,
    ParseErrorView,
>
    decreases
            (if pos < tokens.len() {
                tokens.len() - pos
            } else {
                0
            }),
            3nat,
{
    if token_at(tokens, pos).kind == TokenType::EOF {
        Ok(Seq::empty())
    } else {
        match statement(tokens.skip(pos)) {
            Err(error) => Err(error),
            Ok(first) => if first.consumed == 0 {
                Err(unexpected(Production::Statement, token_at(tokens, pos)))
            } else {
                match statements_from(tokens, pos + first.consumed) {
                    Err(error) => Err(error),
                    Ok(rest) => if first.node is Ignore {
                        Ok(rest)
                    } else {
                        Ok(seq![first.node] + rest)
                    },
                }
            },
        }
    }
}

/// A program: the statements of the window, as one `Program` node.
pub open spec fn program(tokens: Seq<TokenView>) -> Result<NodeView, ParseErrorView>
    decreases tokens.len(), 4nat,
{
    match statements_from(tokens, 0) {
        Err(error) => Err(error),
        Ok(body) => Ok(NodeView::Program(body)),
    }
}

} // verus!
