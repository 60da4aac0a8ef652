//! What holds of every token sequence that the lexical model yields.

use crate::compiler::tokenizer::{
    eof_token, followed_by, is_skippable, is_word_part, is_word_start, lemma_number_end,
    lemma_token_end, lemma_word_end, lex, lex_from, number_end, punctuation_kind, table_lookup,
    token_end, token_kind, word_end, LexError, TokenType, TokenView,
};
use crate::string_utils::is_digit;
use vstd::prelude::*;
use vstd::seq_lib::lemma_flatten_concat;

verus! {

/// The test that keeps the characters which are part of some token.
pub open spec fn visible_character() -> spec_fn(char) -> bool {
    |c: char| !is_skippable(c)
}

/// The characters of `src` that are not skippable, in order.
pub open spec fn visible(src: Seq<char>) -> Seq<char> {
    src.filter(visible_character())
}

/// The lexemes of `tokens`, in order.
pub open spec fn lexemes(tokens: Seq<TokenView>) -> Seq<Seq<char>> {
    tokens.map_values(|t: TokenView| t.lexeme)
}

/// `c` may occur in a source text: it is part of a word or a number, forms a
/// one-character token, or is skippable.
pub open spec fn is_source_char(c: char) -> bool {
    is_word_part(c) || punctuation_kind(c) is Some || is_skippable(c)
}

/// A sequence without skippable characters is all visible.
pub proof fn lemma_visible_all(s: Seq<char>)
    requires
        forall|i: int| 0 <= i < s.len() ==> !is_skippable(#[trigger] s[i]),
    ensures
        visible(s) == s,
    decreases s.len(),
{
    reveal(Seq::filter);
    if s.len() > 0 {
        lemma_visible_all(s.drop_last());
        assert(s.drop_last().push(s.last()) =~= s);
    }
}

/// The characters of a token are source characters, and none is skippable.
pub proof fn lemma_token_chars(src: Seq<char>, pos: int)
    requires
        0 <= pos < src.len(),
        token_kind(src, pos) is Some,
    ensures
        forall|i: int|
            pos <= i < token_end(src, pos) ==> is_source_char(#[trigger] src[i]) && !is_skippable(
                src[i],
            ),
{
    lemma_word_end(src, pos + 1);
    lemma_number_end(src, pos + 1);
}

/// From any position on, a successful scan ends with the end-of-input token,
/// and the lexemes before it spell the visible characters of the rest of the
/// source.
pub proof fn lemma_lex_from_reconstructs(src: Seq<char>, pos: int)
    requires
        0 <= pos <= src.len(),
    ensures
        lex_from(src, pos) matches Ok(tokens) ==> tokens.len() > 0 && tokens.last() == eof_token()
            && lexemes(tokens.drop_last()).flatten() == visible(src.skip(pos)),
    decreases src.len() - pos,
{
    reveal(Seq::filter);
    if pos >= src.len() {
        assert(src.skip(pos) =~= Seq::<char>::empty());
        assert(seq![eof_token()].drop_last() =~= Seq::<TokenView>::empty());
        assert(lexemes(Seq::<TokenView>::empty()) =~= Seq::<Seq<char>>::empty());
    } else if is_skippable(src[pos]) {
        lemma_lex_from_reconstructs(src, pos + 1);
        assert(src.skip(pos) =~= seq![src[pos]] + src.skip(pos + 1));
        src.skip(pos + 1).lemma_filter_prepend(src[pos], visible_character());
        assert(Seq::<char>::empty() + visible(src.skip(pos + 1)) =~= visible(src.skip(pos + 1)));
    } else if let Some(kind) = token_kind(src, pos) {
        let end = token_end(src, pos);
        lemma_token_end(src, pos);
        lemma_lex_from_reconstructs(src, end);
        if let Ok(rest) = lex_from(src, end) {
            let token = TokenView { kind, lexeme: src.subrange(pos, end) };
            let tokens = seq![token] + rest;
            assert(tokens.drop_last() =~= seq![token] + rest.drop_last());
            assert(lexemes(tokens.drop_last()) =~= seq![token.lexeme] + lexemes(rest.drop_last()));
            lemma_flatten_concat(seq![token.lexeme], lexemes(rest.drop_last()));
            seq![token.lexeme].lemma_flatten_one_element();
            assert(src.skip(pos) =~= token.lexeme + src.skip(end));
            Seq::filter_distributes_over_add(token.lexeme, src.skip(end), visible_character());
            lemma_token_chars(src, pos);
            lemma_visible_all(token.lexeme);
        }
    }
}

/// The lexemes of a token sequence, but for the closing end-of-input token,
/// spell the source text with its skippable characters left out.
pub proof fn lemma_lex_reconstructs(src: Seq<char>)
    ensures
        lex(src) matches Ok(tokens) ==> tokens.len() > 0 && tokens.last() == eof_token()
            && lexemes(tokens.drop_last()).flatten() == visible(src),
{
    lemma_lex_from_reconstructs(src, 0);
    assert(src.skip(0) =~= src);
}

/// From any position on, the scan succeeds exactly when every character left
/// is a source character, and otherwise reports the first that is not.
pub proof fn lemma_lex_from_outcome(src: Seq<char>, pos: int)
    requires
        0 <= pos <= src.len() <= usize::MAX,
    ensures
        lex_from(src, pos) is Ok <==> forall|i: int|
            pos <= i < src.len() ==> is_source_char(#[trigger] src[i]),
        lex_from(src, pos) matches Err(error) ==> {
            &&& pos <= error.position < src.len()
            &&& error.character == src[error.position as int]
            &&& !is_source_char(error.character)
            &&& forall|i: int| pos <= i < error.position ==> is_source_char(#[trigger] src[i])
        },
    decreases src.len() - pos,
{
    if pos >= src.len() {
    } else if is_skippable(src[pos]) {
        lemma_lex_from_outcome(src, pos + 1);
    } else if let Some(kind) = token_kind(src, pos) {
        lemma_token_end(src, pos);
        lemma_token_chars(src, pos);
        lemma_lex_from_outcome(src, token_end(src, pos));
    } else {
        assert(!is_source_char(src[pos]));
    }
}

/// Tokenization succeeds exactly on the texts made of source characters, and
/// otherwise reports the first character that is none, with its position.
pub proof fn lemma_lex_outcome(src: Seq<char>)
    requires
        src.len() <= usize::MAX,
    ensures
        lex(src) is Ok <==> forall|i: int| 0 <= i < src.len() ==> is_source_char(#[trigger] src[i]),
        lex(src) matches Err(error) ==> {
            &&& error.position < src.len()
            &&& error.character == src[error.position as int]
            &&& !is_source_char(error.character)
            &&& forall|i: int| 0 <= i < error.position ==> is_source_char(#[trigger] src[i])
        },
{
    lemma_lex_from_outcome(src, 0);
}


/// `words` joined into one text, with one space between neighbours.
pub open spec fn spaced(words: Seq<Seq<char>>) -> Seq<char>
    decreases words.len(),
{
    if words.len() == 0 {
        Seq::empty()
    } else if words.len() == 1 {
        words[0]
    } else {
        words[0] + seq![' '] + spaced(words.drop_first())
    }
}

/// A token is stable when the scan of its lexeme alone reads it whole and
/// gives it the same kind.
pub open spec fn is_stable(token: TokenView) -> bool {
    &&& token.lexeme.len() > 0
    &&& !is_skippable(token.lexeme[0])
    &&& token_kind(token.lexeme, 0) == Some(token.kind)
    &&& token_end(token.lexeme, 0) == token.lexeme.len()
}

/// A run of word characters ends at `end` if all before it are word
/// characters and the one at `end`, if any, is none.
pub proof fn lemma_word_end_is(src: Seq<char>, from: int, end: int)
    requires
        0 <= from <= end <= src.len(),
        forall|i: int| from <= i < end ==> is_word_part(#[trigger] src[i]),
        end < src.len() ==> !is_word_part(src[end]),
    ensures
        word_end(src, from) == end,
    decreases end - from,
{
    if from < end {
        lemma_word_end_is(src, from + 1, end);
    }
}

/// A run of digits ends at `end` if all before it are digits and the one at
/// `end`, if any, is none.
pub proof fn lemma_number_end_is(src: Seq<char>, from: int, end: int)
    requires
        0 <= from <= end <= src.len(),
        forall|i: int| from <= i < end ==> is_digit(#[trigger] src[i]),
        end < src.len() ==> !is_digit(src[end]),
    ensures
        number_end(src, from) == end,
    decreases end - from,
{
    if from < end {
        lemma_number_end_is(src, from + 1, end);
    }
}

/// A text that begins with the lexeme of a stable token, followed by nothing
/// or by a space, begins with that token.
pub proof fn lemma_stable_prefix(text: Seq<char>, token: TokenView)
    requires
        is_stable(token),
        token.lexeme.len() <= text.len(),
        text.subrange(0, token.lexeme.len() as int) == token.lexeme,
        token.lexeme.len() < text.len() ==> text[token.lexeme.len() as int] == ' ',
    ensures
        token_end(text, 0) == token.lexeme.len(),
        token_kind(text, 0) == Some(token.kind),
        !is_skippable(text[0]),
{
    let word = token.lexeme;
    let n = word.len() as int;
    assert(forall|i: int| 0 <= i < n ==> text[i] == #[trigger] word[i]) by {
        assert forall|i: int| 0 <= i < n implies text[i] == #[trigger] word[i] by {
            assert(text.subrange(0, n)[i] == text[i]);
        }
    }
    assert(text[0] == word[0]);
    assert(word.subrange(0, n) =~= word);
    lemma_word_end(word, 1);
    lemma_number_end(word, 1);
    if is_word_start(word[0]) {
        assert forall|i: int| 1 <= i < n implies is_word_part(#[trigger] text[i]) by {
            assert(is_word_part(word[i]));
        }
        lemma_word_end_is(text, 1, n);
    } else if is_digit(word[0]) {
        assert forall|i: int| 1 <= i < n implies is_digit(#[trigger] text[i]) by {
            assert(is_digit(word[i]));
        }
        lemma_number_end_is(text, 1, n);
    }
}

/// The run of word characters from a position of a suffix of `src` is the
/// run from the same place of `src`.
pub proof fn lemma_word_end_shift(src: Seq<char>, by: int, from: int)
    requires
        0 <= by,
        0 <= from,
        by + from <= src.len(),
    ensures
        word_end(src.skip(by), from) + by == word_end(src, by + from),
    decreases src.len() - by - from,
{
    if by + from < src.len() && is_word_part(src[by + from]) {
        lemma_word_end_shift(src, by, from + 1);
    }
}

/// The run of digits from a position of a suffix of `src` is the run from
/// the same place of `src`.
pub proof fn lemma_number_end_shift(src: Seq<char>, by: int, from: int)
    requires
        0 <= by,
        0 <= from,
        by + from <= src.len(),
    ensures
        number_end(src.skip(by), from) + by == number_end(src, by + from),
    decreases src.len() - by - from,
{
    if by + from < src.len() && is_digit(src[by + from]) {
        lemma_number_end_shift(src, by, from + 1);
    }
}

/// The tokens of a suffix of `src` are the tokens of `src` from where the
/// suffix begins.
pub proof fn lemma_lex_from_shift(src: Seq<char>, by: int, pos: int)
    requires
        0 <= by,
        0 <= pos,
        by + pos <= src.len(),
    ensures
        lex_from(src.skip(by), pos) matches Ok(tokens) ==> lex_from(src, by + pos) == Ok::<
            Seq<TokenView>,
            LexError,
        >(tokens),
    decreases src.len() - by - pos,
{
    let tail = src.skip(by);
    if pos >= tail.len() {
    } else if is_skippable(tail[pos]) {
        lemma_lex_from_shift(src, by, pos + 1);
    } else if let Some(kind) = token_kind(tail, pos) {
        lemma_token_end(tail, pos);
        lemma_word_end_shift(src, by, pos + 1);
        lemma_number_end_shift(src, by, pos + 1);
        let end = token_end(tail, pos);
        assert(token_end(src, by + pos) == by + end);
        assert(tail.subrange(pos, end) =~= src.subrange(by + pos, by + end));
        assert(token_kind(src, by + pos) == Some(kind));
        lemma_lex_from_shift(src, by, end);
    }
}

/// Stable tokens, written out with single spaces between them, are read
/// back as they were.
pub proof fn lemma_relex(tokens: Seq<TokenView>)
    requires
        forall|i: int| 0 <= i < tokens.len() ==> is_stable(#[trigger] tokens[i]),
    ensures
        lex(spaced(lexemes(tokens))) == Ok::<Seq<TokenView>, LexError>(tokens + seq![eof_token()]),
    decreases tokens.len(),
{
    let text = spaced(lexemes(tokens));
    if tokens.len() == 0 {
        assert(tokens + seq![eof_token()] =~= seq![eof_token()]);
    } else {
        let token = tokens[0];
        let n = token.lexeme.len() as int;
        let rest = tokens.drop_first();
        assert(lexemes(tokens).drop_first() =~= lexemes(rest));
        assert(lexemes(tokens)[0] == token.lexeme);
        assert(text.subrange(0, n) =~= token.lexeme);
        lemma_stable_prefix(text, token);
        assert(text.subrange(0, token_end(text, 0)) =~= token.lexeme);
        assert(lex_from(text, 0) == followed_by(seq![token], lex_from(text, n)));
        if rest.len() == 0 {
            assert(text.len() == n);
            assert(seq![token] + seq![eof_token()] =~= tokens + seq![eof_token()]);
        } else {
            let tail = spaced(lexemes(rest));
            assert(text.skip(n + 1) =~= tail);
            assert(is_skippable(text[n]));
            assert forall|i: int| 0 <= i < rest.len() implies is_stable(#[trigger] rest[i]) by {
                assert(rest[i] == tokens[i + 1]);
            }
            lemma_relex(rest);
            lemma_lex_from_shift(text, n + 1, 0);
            assert(lex_from(text, n) == lex_from(text, n + 1));
            assert(lex_from(text, n + 1) == Ok::<Seq<TokenView>, LexError>(
                rest + seq![eof_token()],
            ));
            assert(seq![token] + (rest + seq![eof_token()]) =~= tokens + seq![eof_token()]);
        }
    }
}

/// Every token that a scan yields, but for the closing one, is stable.
pub proof fn lemma_lex_from_stable(src: Seq<char>, pos: int)
    requires
        0 <= pos <= src.len(),
    ensures
        lex_from(src, pos) matches Ok(tokens) ==> forall|i: int|
            0 <= i < tokens.len() - 1 ==> is_stable(#[trigger] tokens[i]),
    decreases src.len() - pos,
{
    if pos >= src.len() {
    } else if is_skippable(src[pos]) {
        lemma_lex_from_stable(src, pos + 1);
    } else if let Some(kind) = token_kind(src, pos) {
        let end = token_end(src, pos);
        lemma_token_end(src, pos);
        lemma_lex_from_stable(src, end);
        if let Ok(rest) = lex_from(src, end) {
            let word = src.subrange(pos, end);
            let token = TokenView { kind, lexeme: word };
            let tokens = seq![token] + rest;
            lemma_word_end(src, pos + 1);
            lemma_number_end(src, pos + 1);
            assert(word.subrange(0, word.len() as int) =~= word);
            if is_word_start(src[pos]) {
                lemma_word_end_is(word, 1, word.len() as int);
            } else if is_digit(src[pos]) {
                lemma_number_end_is(word, 1, word.len() as int);
            }
            assert(is_stable(token));
            assert forall|i: int| 0 <= i < tokens.len() - 1 implies is_stable(
                #[trigger] tokens[i],
            ) by {
                if i > 0 {
                    assert(tokens[i] == rest[i - 1]);
                }
            }
        }
    }
}

/// Tokenizing is idempotent on what it has read: the lexemes of a token
/// sequence, written out with single spaces between them and without the
/// closing end-of-input token, tokenize to the same sequence again.
pub proof fn lemma_retokenize(src: Seq<char>)
    ensures
        lex(src) matches Ok(tokens) ==> lex(spaced(lexemes(tokens.drop_last()))) == lex(src),
{
    if let Ok(tokens) = lex(src) {
        lemma_lex_from_stable(src, 0);
        lemma_lex_reconstructs(src);
        lemma_relex(tokens.drop_last());
        assert(tokens.drop_last() + seq![eof_token()] =~= tokens);
    }
}


/// No word, number or punctuation character is of the end-of-input kind.
pub proof fn lemma_stable_kind(token: TokenView)
    requires
        is_stable(token),
    ensures
        token.kind != TokenType::EOF,
{
    reveal_with_fuel(table_lookup, 5);
}

/// The end-of-input token closes a token sequence and stands nowhere else
/// in it.
pub proof fn lemma_lex_single_eof(src: Seq<char>)
    ensures
        lex(src) matches Ok(tokens) ==> tokens.len() > 0 && tokens.last() == eof_token()
            && forall|i: int|
            0 <= i < tokens.len() - 1 ==> (#[trigger] tokens[i]).kind != TokenType::EOF,
{
    if let Ok(tokens) = lex(src) {
        lemma_lex_reconstructs(src);
        lemma_lex_from_stable(src, 0);
        assert forall|i: int| 0 <= i < tokens.len() - 1 implies (#[trigger] tokens[i]).kind
            != TokenType::EOF by {
            lemma_stable_kind(tokens[i]);
        }
    }
}

} // verus!
