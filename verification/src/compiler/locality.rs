//! The prefix-consumption law: a production that succeeds has read the
//! tokens it reports as consumed and no others, so any window that begins
//! with those tokens gives the same outcome.

use crate::compiler::ast::NodeView;
use crate::compiler::grammar::{
    additive, additive_from, binary_expression, close_from, expression, first_of_kind,
    function_declaration, is_call_start, is_scaling, lemma_close_from, lemma_first_of_kind,
    lemma_multiplicative_from_consumed, matching_close, multiplicative, multiplicative_from,
    primary, return_statement, statement, token_at, variable_declaration,
};
use crate::compiler::grammar_laws::{
    lemma_expression, lemma_function_call, lemma_multiplicative, lemma_statement,
};
use crate::compiler::tokenizer::{TokenType, TokenView};
use vstd::prelude::*;

verus! {

/// A closing bracket that is found is found again in any prefix of the
/// window that holds it.
pub proof fn lemma_close_from_local(
    tokens: Seq<TokenView>,
    at: int,
    depth: int,
    open: TokenType,
    close: TokenType,
    k: int,
)
    requires
        0 <= at,
        close_from(tokens, at, depth, open, close) matches Some(found) && found < k,
        k <= tokens.len(),
    ensures
        close_from(tokens.take(k), at, depth, open, close) == close_from(
            tokens,
            at,
            depth,
            open,
            close,
        ),
    decreases tokens.len() - at,
{
    lemma_close_from(tokens, at, depth, open, close);
    if at < tokens.len() {
        assert(tokens.take(k)[at] == tokens[at]);
        if tokens[at].kind == open {
            lemma_close_from_local(tokens, at + 1, depth + 1, open, close, k);
        } else if tokens[at].kind == close {
            if depth > 1 {
                lemma_close_from_local(tokens, at + 1, depth - 1, open, close, k);
            }
        } else {
            lemma_close_from_local(tokens, at + 1, depth, open, close, k);
        }
    }
}

/// The first token of a kind is the first of that kind in any prefix of
/// the window that holds it.
pub proof fn lemma_first_of_kind_local(tokens: Seq<TokenView>, kind: TokenType, from: int, k: int)
    requires
        0 <= from,
        first_of_kind(tokens, kind, from) < k <= tokens.len(),
    ensures
        first_of_kind(tokens.take(k), kind, from) == first_of_kind(tokens, kind, from),
    decreases tokens.len() - from,
{
    lemma_first_of_kind(tokens, kind, from);
    if from < tokens.len() {
        assert(tokens.take(k)[from] == tokens[from]);
        if tokens[from].kind != kind {
            lemma_first_of_kind_local(tokens, kind, from + 1, k);
        }
    }
}

/// A multiplicative chain that is read on gives the same outcome on any
/// prefix of the window that holds what it consumed.
pub proof fn lemma_multiplicative_from_local(
    tokens: Seq<TokenView>,
    left: NodeView,
    consumed: nat,
    k: int,
)
    requires
        consumed <= k <= tokens.len(),
        multiplicative_from(tokens, left, consumed) matches Ok(chain) && chain.consumed <= k,
    ensures
        multiplicative_from(tokens.take(k), left, consumed) == multiplicative_from(
            tokens,
            left,
            consumed,
        ),
    decreases tokens.len() - consumed,
{
    let prefix = tokens.take(k);
    if consumed < tokens.len() && is_scaling(tokens[consumed as int]) {
        let operator = primary(tokens[consumed as int])->Ok_0;
        let right = primary(token_at(tokens, consumed as int + 1))->Ok_0;
        let product = binary_expression(
            left,
            operator.node,
            right.node,
            tokens[consumed as int],
        )->Ok_0;
        lemma_multiplicative_from_consumed(tokens, product.node, consumed + 2);
        assert(prefix[consumed as int] == tokens[consumed as int]);
        assert(token_at(prefix, consumed as int + 1) == token_at(tokens, consumed as int + 1));
        lemma_multiplicative_from_local(tokens, product.node, consumed + 2, k);
    } else if consumed < k {
        assert(prefix[consumed as int] == tokens[consumed as int]);
    }
}

/// A multiplicative chain gives the same outcome on any prefix of the
/// window that holds what it consumed.
pub proof fn lemma_multiplicative_local(tokens: Seq<TokenView>, k: int)
    requires
        k <= tokens.len(),
        multiplicative(tokens) matches Ok(chain) && chain.consumed <= k,
    ensures
        multiplicative(tokens.take(k)) == multiplicative(tokens),
{
    lemma_multiplicative(tokens);
    let first = primary(token_at(tokens, 0))->Ok_0;
    lemma_multiplicative_from_consumed(tokens, first.node, 1);
    assert(token_at(tokens.take(k), 0) == token_at(tokens, 0));
    lemma_multiplicative_from_local(tokens, first.node, 1, k);
}

/// An additive chain that is read on consumes at least what was consumed
/// before.
pub proof fn lemma_additive_from_consumed(tokens: Seq<TokenView>, left: NodeView, consumed: nat)
    requires
        consumed <= tokens.len(),
    ensures
        additive_from(tokens, left, consumed) matches Ok(chain) ==> consumed <= chain.consumed,
    decreases tokens.len() - consumed,
{
    if consumed < tokens.len() && tokens[consumed as int].kind == TokenType::BinaryOperator {
        if let Ok(operator) = primary(tokens[consumed as int]) {
            let rest = tokens.skip(consumed as int + 1);
            if let Ok(right) = multiplicative(rest) {
                lemma_multiplicative(rest);
                if let Ok(sum) = binary_expression(
                    left,
                    operator.node,
                    right.node,
                    tokens[consumed as int],
                ) {
                    lemma_additive_from_consumed(tokens, sum.node, consumed + 1 + right.consumed);
                }
            }
        }
    }
}

/// An additive chain that is read on gives the same outcome on any prefix
/// of the window that holds what it consumed.
pub proof fn lemma_additive_from_local(
    tokens: Seq<TokenView>,
    left: NodeView,
    consumed: nat,
    k: int,
)
    requires
        consumed <= k <= tokens.len(),
        additive_from(tokens, left, consumed) matches Ok(chain) && chain.consumed <= k,
    ensures
        additive_from(tokens.take(k), left, consumed) == additive_from(tokens, left, consumed),
    decreases tokens.len() - consumed,
{
    let prefix = tokens.take(k);
    if consumed < tokens.len() && tokens[consumed as int].kind == TokenType::BinaryOperator {
        let operator = primary(tokens[consumed as int])->Ok_0;
        let rest = tokens.skip(consumed as int + 1);
        let right = multiplicative(rest)->Ok_0;
        let sum = binary_expression(
            left,
            operator.node,
            right.node,
            tokens[consumed as int],
        )->Ok_0;
        lemma_multiplicative(rest);
        lemma_additive_from_consumed(tokens, sum.node, consumed + 1 + right.consumed);
        assert(prefix[consumed as int] == tokens[consumed as int]);
        assert(prefix.skip(consumed as int + 1) =~= rest.take(k - consumed - 1));
        lemma_multiplicative_local(rest, k - consumed - 1);
        lemma_additive_from_local(tokens, sum.node, consumed + 1 + right.consumed, k);
    } else if consumed < k {
        assert(prefix[consumed as int] == tokens[consumed as int]);
    }
}

/// An additive chain gives the same outcome on any prefix of the window
/// that holds what it consumed.
pub proof fn lemma_additive_local(tokens: Seq<TokenView>, k: int)
    requires
        k <= tokens.len(),
        additive(tokens) matches Ok(chain) && chain.consumed <= k,
    ensures
        additive(tokens.take(k)) == additive(tokens),
{
    let first = multiplicative(tokens)->Ok_0;
    lemma_multiplicative(tokens);
    lemma_additive_from_consumed(tokens, first.node, first.consumed);
    lemma_multiplicative_local(tokens, k);
    lemma_additive_from_local(tokens, first.node, first.consumed, k);
}

/// An expression gives the same outcome on any prefix of the window that
/// holds what it consumed.
pub proof fn lemma_expression_local(tokens: Seq<TokenView>, k: int)
    requires
        k <= tokens.len(),
        expression(tokens) matches Ok(outcome) && outcome.consumed <= k,
    ensures
        expression(tokens.take(k)) == expression(tokens),
{
    let prefix = tokens.take(k);
    lemma_expression(tokens);
    if is_call_start(tokens) {
        let close = matching_close(tokens, 1, TokenType::OpenParen, TokenType::CloseParen)->Some_0;
        lemma_close_from(tokens, 1, 0, TokenType::OpenParen, TokenType::CloseParen);
        lemma_function_call(tokens.subrange(0, close + 1));
        lemma_close_from_local(tokens, 1, 0, TokenType::OpenParen, TokenType::CloseParen, k);
        assert(prefix[0] == tokens[0] && prefix[1] == tokens[1]);
        assert(prefix.subrange(0, close + 1) =~= tokens.subrange(0, close + 1));
    } else {
        if k >= 2 {
            assert(prefix[0] == tokens[0] && prefix[1] == tokens[1]);
        }
        lemma_additive_local(tokens, k);
    }
}

/// A variable declaration gives the same outcome on any prefix of the
/// window that holds what it consumed.
pub proof fn lemma_variable_declaration_local(tokens: Seq<TokenView>, k: int)
    requires
        k <= tokens.len(),
        variable_declaration(tokens) matches Ok(outcome) && outcome.consumed <= k,
    ensures
        variable_declaration(tokens.take(k)) == variable_declaration(tokens),
{
    reveal(variable_declaration);
    let prefix = tokens.take(k);
    let semicolon = first_of_kind(tokens, TokenType::Semicolon, 0);
    lemma_first_of_kind(tokens, TokenType::Semicolon, 0);
    lemma_first_of_kind_local(tokens, TokenType::Semicolon, 0, k);
    assert(token_at(prefix, 0) == token_at(tokens, 0));
    assert(token_at(prefix, 1) == token_at(tokens, 1));
    assert(token_at(prefix, 2) == token_at(tokens, 2));
    assert(prefix.subrange(3, semicolon) =~= tokens.subrange(3, semicolon));
    assert(prefix[1] == tokens[1]);
}

/// A return statement gives the same outcome on any prefix of the window
/// that holds what it consumed.
pub proof fn lemma_return_statement_local(tokens: Seq<TokenView>, k: int)
    requires
        k <= tokens.len(),
        return_statement(tokens) matches Ok(outcome) && outcome.consumed <= k,
    ensures
        return_statement(tokens.take(k)) == return_statement(tokens),
{
    reveal(return_statement);
    let prefix = tokens.take(k);
    let value = expression(tokens.skip(1))->Ok_0;
    assert(token_at(prefix, 0) == token_at(tokens, 0));
    assert(prefix.skip(1) =~= tokens.skip(1).take(k - 1));
    lemma_expression_local(tokens.skip(1), k - 1);
    assert(token_at(prefix, 1 + value.consumed as int) == token_at(
        tokens,
        1 + value.consumed as int,
    ));
}

/// A function declaration gives the same outcome on any prefix of the
/// window that holds what it consumed.
pub proof fn lemma_function_declaration_local(tokens: Seq<TokenView>, k: int)
    requires
        k <= tokens.len(),
        function_declaration(tokens) matches Ok(outcome) && outcome.consumed <= k,
    ensures
        function_declaration(tokens.take(k)) == function_declaration(tokens),
{
    let prefix = tokens.take(k);
    let open_paren = TokenType::OpenParen;
    let close_paren_kind = TokenType::CloseParen;
    let close_paren = matching_close(tokens, 2, open_paren, close_paren_kind)->Some_0;
    lemma_close_from(tokens, 2, 0, open_paren, close_paren_kind);
    let close_curly = matching_close(
        tokens,
        close_paren + 1,
        TokenType::OpenCurly,
        TokenType::CloseCurly,
    )->Some_0;
    lemma_close_from(tokens, close_paren + 1, 0, TokenType::OpenCurly, TokenType::CloseCurly);
    lemma_close_from_local(tokens, 2, 0, open_paren, close_paren_kind, k);
    lemma_close_from_local(
        tokens,
        close_paren + 1,
        0,
        TokenType::OpenCurly,
        TokenType::CloseCurly,
        k,
    );
    assert(token_at(prefix, 0) == token_at(tokens, 0));
    assert(token_at(prefix, 1) == token_at(tokens, 1));
    assert(token_at(prefix, 2) == token_at(tokens, 2));
    assert(token_at(prefix, close_paren + 1) == token_at(tokens, close_paren + 1));
    assert(prefix[1] == tokens[1]);
    assert(prefix.subrange(3, close_paren) =~= tokens.subrange(3, close_paren));
    assert(prefix.subrange(close_paren + 2, close_curly) =~= tokens.subrange(
        close_paren + 2,
        close_curly,
    ));
}

/// The prefix-consumption law for statements: a statement that succeeds
/// gives the same outcome on any window that begins with the tokens it
/// consumed.
pub proof fn lemma_statement_local(tokens: Seq<TokenView>, k: int)
    requires
        k <= tokens.len(),
        statement(tokens) matches Ok(outcome) && outcome.consumed <= k,
    ensures
        statement(tokens.take(k)) == statement(tokens),
{
    lemma_statement(tokens);
    assert(token_at(tokens.take(k), 0) == token_at(tokens, 0));
    match token_at(tokens, 0).kind {
        TokenType::Let | TokenType::Const => lemma_variable_declaration_local(tokens, k),
        TokenType::Function => lemma_function_declaration_local(tokens, k),
        TokenType::Identifier => lemma_expression_local(tokens, k),
        TokenType::Return => lemma_return_statement_local(tokens, k),
        _ => {},
    }
}

} // verus!
