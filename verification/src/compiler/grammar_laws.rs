//! What holds of every successful production: it consumes a part of its
//! window that is not empty, and the tree it builds holds no sentinel.

use crate::compiler::ast::{all_sentinel_free, is_sentinel_free, NodeView};
use crate::compiler::grammar::{
    additive, additive_from, arguments, arguments_from, binary_expression, expression,
    function_call, function_declaration, function_parameters, is_call_start, is_scaling,
    lemma_close_from, lemma_first_of_kind, lemma_segment_end, matching_close, multiplicative,
    multiplicative_from, parameters_from, primary, program, return_statement, segment_end,
    statement, statements_from, token_at, variable_declaration, first_of_kind, Parsed,
};
use crate::compiler::token_laws::{lemma_retokenize, lexemes, spaced};
use crate::compiler::tokenizer::{eof_token, lex, TokenType, TokenView};
use vstd::prelude::*;

verus! {

/// The outcome consumed at least one token of the window and no more than
/// it holds, and its node is free of sentinels.
pub open spec fn is_sound(tokens: Seq<TokenView>, outcome: Parsed) -> bool {
    1 <= outcome.consumed <= tokens.len() && is_sentinel_free(outcome.node)
}

/// A primary is one token and holds no sentinel.
pub proof fn lemma_primary(token: TokenView)
    ensures
        primary(token) matches Ok(outcome) ==> outcome.consumed == 1 && is_sentinel_free(
            outcome.node,
        ),
{
}

/// A multiplicative chain that is read on from a sound start stays sound.
pub proof fn lemma_multiplicative_from(tokens: Seq<TokenView>, left: NodeView, consumed: nat)
    requires
        1 <= consumed <= tokens.len(),
        is_sentinel_free(left),
    ensures
        multiplicative_from(tokens, left, consumed) matches Ok(chain) ==> is_sound(tokens, chain),
    decreases tokens.len() - consumed,
{
    if consumed < tokens.len() && is_scaling(tokens[consumed as int]) {
        if let Ok(operator) = primary(tokens[consumed as int]) {
            if let Ok(right) = primary(token_at(tokens, consumed as int + 1)) {
                lemma_primary(tokens[consumed as int]);
                lemma_primary(token_at(tokens, consumed as int + 1));
                if let Ok(product) = binary_expression(
                    left,
                    operator.node,
                    right.node,
                    tokens[consumed as int],
                ) {
                    lemma_multiplicative_from(tokens, product.node, consumed + 2);
                }
            }
        }
    }
}

/// A multiplicative chain is sound.
pub proof fn lemma_multiplicative(tokens: Seq<TokenView>)
    ensures
        multiplicative(tokens) matches Ok(chain) ==> is_sound(tokens, chain),
{
    if let Ok(first) = primary(token_at(tokens, 0)) {
        lemma_multiplicative_from(tokens, first.node, 1);
    }
}

/// An additive chain that is read on from a sound start stays sound.
pub proof fn lemma_additive_from(tokens: Seq<TokenView>, left: NodeView, consumed: nat)
    requires
        1 <= consumed <= tokens.len(),
        is_sentinel_free(left),
    ensures
        additive_from(tokens, left, consumed) matches Ok(chain) ==> is_sound(tokens, chain),
    decreases tokens.len() - consumed,
{
    if consumed < tokens.len() && tokens[consumed as int].kind == TokenType::BinaryOperator {
        if let Ok(operator) = primary(tokens[consumed as int]) {
            let rest = tokens.skip(consumed as int + 1);
            if let Ok(right) = multiplicative(rest) {
                lemma_multiplicative(rest);
                lemma_primary(tokens[consumed as int]);
                if let Ok(sum) = binary_expression(
                    left,
                    operator.node,
                    right.node,
                    tokens[consumed as int],
                ) {
                    lemma_additive_from(tokens, sum.node, consumed + 1 + right.consumed);
                }
            }
        }
    }
}

/// An additive chain is sound.
pub proof fn lemma_additive(tokens: Seq<TokenView>)
    ensures
        additive(tokens) matches Ok(chain) ==> is_sound(tokens, chain),
{
    if let Ok(first) = multiplicative(tokens) {
        lemma_multiplicative(tokens);
        lemma_additive_from(tokens, first.node, first.consumed);
    }
}

/// An expression is sound.
pub proof fn lemma_expression(tokens: Seq<TokenView>)
    ensures
        expression(tokens) matches Ok(outcome) ==> is_sound(tokens, outcome),
    decreases tokens.len(), 1nat,
{
    if is_call_start(tokens) {
        if let Some(close) = matching_close(
            tokens,
            1,
            TokenType::OpenParen,
            TokenType::CloseParen,
        ) {
            lemma_close_from(tokens, 1, 0, TokenType::OpenParen, TokenType::CloseParen);
            lemma_function_call(tokens.subrange(0, close + 1));
        }
    } else {
        lemma_additive(tokens);
    }
}

/// A call consumes its whole window and holds no sentinel.
pub proof fn lemma_function_call(tokens: Seq<TokenView>)
    ensures
        function_call(tokens) matches Ok(outcome) ==> outcome.consumed == tokens.len()
            && is_sound(tokens, outcome),
    decreases tokens.len(), 0nat,
{
    if tokens.len() >= 3 {
        lemma_arguments(tokens.subrange(2, tokens.len() - 1));
        assert(is_sentinel_free(NodeView::Identifier(tokens[0].lexeme)));
    }
}

/// The arguments read from a position on hold no sentinel.
pub proof fn lemma_arguments_from(tokens: Seq<TokenView>, from: int)
    ensures
        arguments_from(tokens, from) matches Ok(items) ==> all_sentinel_free(items),
    decreases tokens.len() + 1, tokens.len() - from,
{
    if 0 <= from <= tokens.len() {
        let end = segment_end(tokens, from, 0);
        lemma_segment_end(tokens, from, 0);
        lemma_expression(tokens.subrange(from, end));
        if let Ok(first) = expression(tokens.subrange(from, end)) {
            if from + first.consumed == end && end < tokens.len() {
                lemma_arguments_from(tokens, end + 1);
            }
        }
    }
}

/// An argument list holds no sentinel.
pub proof fn lemma_arguments(tokens: Seq<TokenView>)
    ensures
        arguments(tokens) matches Ok(list) ==> is_sentinel_free(list),
    decreases tokens.len() + 1, tokens.len() + 1,
{
    reveal_with_fuel(is_sentinel_free, 2);
    if tokens.len() > 0 {
        lemma_arguments_from(tokens, 0);
    }
}

/// A variable declaration is sound.
pub proof fn lemma_variable_declaration(tokens: Seq<TokenView>)
    ensures
        variable_declaration(tokens) matches Ok(outcome) ==> is_sound(tokens, outcome),
{
    reveal(variable_declaration);
    let semicolon = first_of_kind(tokens, TokenType::Semicolon, 0);
    lemma_first_of_kind(tokens, TokenType::Semicolon, 0);
    if 3 <= semicolon < tokens.len() {
        lemma_expression(tokens.subrange(3, semicolon));
        assert(is_sentinel_free(NodeView::DeclarationType(token_at(tokens, 0).kind)));
    }
}

/// A return statement is sound.
pub proof fn lemma_return_statement(tokens: Seq<TokenView>)
    ensures
        return_statement(tokens) matches Ok(outcome) ==> is_sound(tokens, outcome),
{
    reveal(return_statement);
    if tokens.len() > 0 {
        lemma_expression(tokens.skip(1));
    }
}

/// The parameters read from a position on hold no sentinel.
pub proof fn lemma_parameters_from(tokens: Seq<TokenView>, from: int)
    requires
        0 <= from,
    ensures
        parameters_from(tokens, from) matches Ok(names) ==> all_sentinel_free(names),
    decreases tokens.len() - from,
{
    if from + 1 < tokens.len() {
        lemma_parameters_from(tokens, from + 2);
    }
}

/// A function declaration is sound.
pub proof fn lemma_function_declaration(tokens: Seq<TokenView>)
    ensures
        function_declaration(tokens) matches Ok(outcome) ==> is_sound(tokens, outcome),
    decreases tokens.len(), 1nat,
{
    reveal_with_fuel(is_sentinel_free, 2);
    if token_at(tokens, 2).kind != TokenType::OpenParen {
    } else if let Some(close_paren) = matching_close(
        tokens,
        2,
        TokenType::OpenParen,
        TokenType::CloseParen,
    ) {
        lemma_close_from(tokens, 2, 0, TokenType::OpenParen, TokenType::CloseParen);
        if tokens.subrange(3, close_paren).len() > 0 {
            lemma_parameters_from(tokens.subrange(3, close_paren), 0);
        }
        if token_at(tokens, close_paren + 1).kind != TokenType::OpenCurly {
        } else if let Some(close_curly) = matching_close(
            tokens,
            close_paren + 1,
            TokenType::OpenCurly,
            TokenType::CloseCurly,
        ) {
            lemma_close_from(
                tokens,
                close_paren + 1,
                0,
                TokenType::OpenCurly,
                TokenType::CloseCurly,
            );
            lemma_program(tokens.subrange(close_paren + 2, close_curly).push(eof_token()));
        }
    }
}

/// A statement consumes a part of its window that is not empty, and yields
/// `Ignore` or a node without sentinels.
pub proof fn lemma_statement(tokens: Seq<TokenView>)
    ensures
        statement(tokens) matches Ok(outcome) ==> 1 <= outcome.consumed <= tokens.len() && (
        outcome.node is Ignore || is_sentinel_free(outcome.node)),
    decreases tokens.len(), 2nat,
{
    match token_at(tokens, 0).kind {
        TokenType::Let | TokenType::Const => lemma_variable_declaration(tokens),
        TokenType::Function => lemma_function_declaration(tokens),
        TokenType::Identifier => lemma_expression(tokens),
        TokenType::Return => lemma_return_statement(tokens),
        _ => {},
    }
}

/// The statements read from a position on hold no sentinel.
pub proof fn lemma_statements_from(tokens: Seq<TokenView>, pos: int)
    ensures
        statements_from(tokens, pos) matches Ok(body) ==> all_sentinel_free(body),
    decreases
            (if pos < tokens.len() {
                tokens.len() - pos
            } else {
                0
            }),
            3nat,
{
    if token_at(tokens, pos).kind != TokenType::EOF {
        lemma_statement(tokens.skip(pos));
        if let Ok(first) = statement(tokens.skip(pos)) {
            lemma_statements_from(tokens, pos + first.consumed);
        }
    }
}

/// A tree that a parse returns holds neither sentinel.
pub proof fn lemma_program(tokens: Seq<TokenView>)
    ensures
        program(tokens) matches Ok(tree) ==> tree is Program && is_sentinel_free(tree),
    decreases tokens.len(), 4nat,
{
    reveal_with_fuel(is_sentinel_free, 2);
    lemma_statements_from(tokens, 0);
}

/// No statement consumes nothing: the parser always advances.
pub proof fn lemma_statements_advance(tokens: Seq<TokenView>, pos: int)
    requires
        token_at(tokens, pos).kind != TokenType::EOF,
    ensures
        statement(tokens.skip(pos)) matches Ok(first) ==> pos < pos + first.consumed
            <= tokens.len(),
{
    lemma_statement(tokens.skip(pos));
}


/// Where a statement begins at `pos`, the statements from `pos` on are that
/// statement, unless it yields `Ignore`, and the statements after it.
pub proof fn lemma_statements_step(tokens: Seq<TokenView>, pos: int)
    requires
        token_at(tokens, pos).kind != TokenType::EOF,
    ensures
        0 <= pos < tokens.len(),
        statements_from(tokens, pos) == (match statement(tokens.skip(pos)) {
            Err(error) => Err(error),
            Ok(first) => match statements_from(tokens, pos + first.consumed) {
                Err(error) => Err(error),
                Ok(rest) => if first.node is Ignore {
                    Ok(rest)
                } else {
                    Ok(seq![first.node] + rest)
                },
            },
        }),
{
    lemma_statement(tokens.skip(pos));
}

/// Where the head of a function declaration is in place, both closing
/// brackets are found and the parameters are read, the declaration is
/// what the parse of its body makes it.
pub proof fn lemma_function_declaration_body(
    tokens: Seq<TokenView>,
    close_paren: int,
    close_curly: int,
)
    requires
        token_at(tokens, 0).kind == TokenType::Function,
        token_at(tokens, 1).kind == TokenType::Identifier,
        token_at(tokens, 2).kind == TokenType::OpenParen,
        matching_close(tokens, 2, TokenType::OpenParen, TokenType::CloseParen) == Some(
            close_paren,
        ),
        function_parameters(tokens.subrange(3, close_paren)) is Ok,
        token_at(tokens, close_paren + 1).kind == TokenType::OpenCurly,
        matching_close(tokens, close_paren + 1, TokenType::OpenCurly, TokenType::CloseCurly)
            == Some(close_curly),
    ensures
        3 <= close_paren,
        close_paren + 2 <= close_curly < tokens.len(),
        function_declaration(tokens) == (match program(
            tokens.subrange(close_paren + 2, close_curly).push(eof_token()),
        ) {
            Err(error) => Err(error),
            Ok(body) => Ok(
                Parsed {
                    consumed: (close_curly + 1) as nat,
                    node: NodeView::FunctionDeclaration(
                        tokens[1].lexeme,
                        function_parameters(tokens.subrange(3, close_paren))->Ok_0,
                        Box::new(body),
                    ),
                },
            ),
        }),
{
    lemma_close_from(tokens, 2, 0, TokenType::OpenParen, TokenType::CloseParen);
    lemma_close_from(tokens, close_paren + 1, 0, TokenType::OpenCurly, TokenType::CloseCurly);
}


/// Parsing survives a round trip through text: the lexemes of a token
/// sequence, written out with single spaces between them and tokenized
/// again, parse to the same tree, or fail with the same error.
pub proof fn lemma_reparse(src: Seq<char>)
    ensures
        lex(src) matches Ok(tokens) ==> {
            &&& lex(spaced(lexemes(tokens.drop_last()))) matches Ok(again)
            &&& program(again) == program(tokens)
        },
{
    lemma_retokenize(src);
}

} // verus!
