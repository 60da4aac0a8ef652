//! Lexical analysis: a single forward scan that turns source text into a
//! sequence of classified tokens, closed by one end-of-input token.

use crate::box_utils::Boxable;
use crate::compiler::token_laws::{
    is_source_char, lemma_lex_outcome, lemma_lex_reconstructs, lemma_lex_single_eof, lexemes,
    visible,
};
use crate::enum_utils::Variant;
use crate::string_utils::{char_is_digit, char_is_letter, chars_of, is_digit, is_letter};
use std::collections::HashMap;
use vstd::prelude::*;
use vstd::string::*;

verus! {

/// The kind of a token.
#[derive(Clone, Copy, Debug, PartialEq, Eq, Structural)]
pub enum TokenType {
    Equals,
    BinaryOperator,
    Semicolon,
    OpenParen,
    CloseParen,
    Identifier,
    NumericLiteral,
    Let,
    Const,
    Function,
    Return,
    Comma,
    OpenCurly,
    CloseCurly,
    EOF,
}

/// A classified lexical unit: its kind and the source text it was read from.
#[derive(Debug)]
pub struct Token {
    pub kind: TokenType,
    pub lexeme: String,
}

/// What a token is in contracts and proofs: its kind and the characters of its
/// lexeme.
pub ghost struct TokenView {
    pub kind: TokenType,
    pub lexeme: Seq<char>,
}

impl View for Token {
    type V = TokenView;

    open spec fn view(&self) -> TokenView {
        TokenView { kind: self.kind, lexeme: self.lexeme@ }
    }
}

/// The views of a sequence of tokens, in order.
pub open spec fn token_views(tokens: Seq<Token>) -> Seq<TokenView> {
    tokens.map_values(|t: Token| t@)
}

impl Token {
    pub fn new(kind: TokenType, lexeme: String) -> (token: Token)
        ensures
            token.kind == kind,
            token.lexeme == lexeme,
    {
        Token { kind, lexeme }
    }

    pub fn to_box(&self) -> (boxed: Box<Self>)
        ensures
            *boxed == *self,
    {
        Box::new(self.clone())
    }
}

impl Clone for Token {
    fn clone(&self) -> (copy: Self)
        ensures
            copy == *self,
    {
        Token { kind: self.kind, lexeme: self.lexeme.clone() }
    }
}

impl PartialEq for Token {
    fn eq(&self, other: &Self) -> (equal: bool) {
        self.kind == other.kind && self.lexeme == other.lexeme
    }
}

impl vstd::std_specs::cmp::PartialEqSpecImpl for Token {
    open spec fn obeys_eq_spec() -> bool {
        true
    }

    open spec fn eq_spec(&self, other: &Self) -> bool {
        self.kind == other.kind && self.lexeme@ == other.lexeme@
    }
}

/// An unrecognized character in the source, and its position counted in
/// characters from the start.
#[derive(Clone, Copy, Debug, PartialEq, Eq, Structural)]
pub struct LexError {
    pub character: char,
    pub position: usize,
}


/// The reserved words, each with the kind it stands for.
pub open spec fn keyword_table() -> Seq<(Seq<char>, TokenType)> {
    seq![
        (seq!['l', 'e', 't'], TokenType::Let),
        (seq!['c', 'o', 'n', 's', 't'], TokenType::Const),
        (seq!['f', 'u', 'n', 'c', 't', 'i', 'o', 'n'], TokenType::Function),
        (seq!['r', 'e', 't', 'u', 'r', 'n'], TokenType::Return),
    ]
}

/// The kind that `table` gives for `word`: that of the first entry spelled
/// like it, if there is one.
pub open spec fn table_lookup(table: Seq<(Seq<char>, TokenType)>, word: Seq<char>) -> Option<
    TokenType,
>
    decreases table.len(),
{
    if table.len() == 0 {
        None
    } else if table.first().0 == word {
        Some(table.first().1)
    } else {
        table_lookup(table.drop_first(), word)
    }
}

/// The keyword kind of `word`, if it is a reserved word.
pub open spec fn keyword_kind(word: Seq<char>) -> Option<TokenType> {
    table_lookup(keyword_table(), word)
}

/// The kind of a completed word: its keyword kind, or `Identifier`.
pub open spec fn word_kind(word: Seq<char>) -> TokenType {
    match keyword_kind(word) {
        Some(kind) => kind,
        None => TokenType::Identifier,
    }
}

/// The entries of an executable keyword table, as contracts see them.
pub open spec fn keyword_views(table: Seq<(String, TokenType)>) -> Seq<(Seq<char>, TokenType)> {
    table.map_values(|entry: (String, TokenType)| (entry.0@, entry.1))
}

/// The table of reserved words.
pub struct Keywords {}

impl Keywords {
    /// The reserved words with their kinds, in a fixed order.
    pub fn get() -> (table: Vec<(String, TokenType)>)
        ensures
            keyword_views(table@) == keyword_table(),
    {
        let mut table: Vec<(String, TokenType)> = Vec::new();
        table.push((String::from_str("let"), TokenType::Let));
        table.push((String::from_str("const"), TokenType::Const));
        table.push((String::from_str("function"), TokenType::Function));
        table.push((String::from_str("return"), TokenType::Return));
        proof {
            reveal_strlit("let");
            reveal_strlit("const");
            reveal_strlit("function");
            reveal_strlit("return");
            assert(table@[0].0@ =~= keyword_table()[0].0);
            assert(table@[1].0@ =~= keyword_table()[1].0);
            assert(table@[2].0@ =~= keyword_table()[2].0);
            assert(table@[3].0@ =~= keyword_table()[3].0);
            assert(keyword_views(table@) =~= keyword_table());
        }
        table
    }

    /// Looks `word` up in `table`.
    pub fn find(table: &Vec<(String, TokenType)>, word: &String) -> (kind: Option<TokenType>)
        ensures
            kind == table_lookup(keyword_views(table@), word@),
    {
        let ghost entries = keyword_views(table@);
        let mut i: usize = 0;
        assert(entries.skip(0) =~= entries);
        while i < table.len()
            invariant
                i <= table.len(),
                entries == keyword_views(table@),
                table_lookup(entries, word@) == table_lookup(entries.skip(i as int), word@),
            decreases table.len() - i,
        {
            proof {
                let rest = entries.skip(i as int);
                assert(rest.first() == entries[i as int]);
                assert(rest.drop_first() =~= entries.skip(i + 1));
            }
            if table[i].0 == *word {
                return Some(table[i].1);
            }
            i += 1;
        }
        None
    }
}

/// The punctuation and operator characters, keyed by code point, each with
/// the kind of the one-character token it forms.
pub open spec fn punctuation_table() -> Map<u32, TokenType> {
    map![
        ';' as u32 => TokenType::Semicolon,
        '=' as u32 => TokenType::Equals,
        '(' as u32 => TokenType::OpenParen,
        ')' as u32 => TokenType::CloseParen,
        '+' as u32 => TokenType::BinaryOperator,
        '-' as u32 => TokenType::BinaryOperator,
        '*' as u32 => TokenType::BinaryOperator,
        '/' as u32 => TokenType::BinaryOperator,
        '{' as u32 => TokenType::OpenCurly,
        '}' as u32 => TokenType::CloseCurly,
        ',' as u32 => TokenType::Comma,
    ]
}

/// The kind of the one-character token that `c` forms, if it forms one.
pub open spec fn punctuation_kind(c: char) -> Option<TokenType> {
    if punctuation_table().contains_key(c as u32) {
        Some(punctuation_table()[c as u32])
    } else {
        None
    }
}

/// The table of one-character tokens.
pub struct SinglecharTokens {}

impl SinglecharTokens {
    /// The one-character tokens, keyed by the character's code point.
    pub fn get() -> (table: HashMap<u32, TokenType>)
        ensures
            table@ == punctuation_table(),
    {
        let mut table: HashMap<u32, TokenType> = HashMap::new();
        table.insert(';' as u32, TokenType::Semicolon);
        table.insert('=' as u32, TokenType::Equals);
        table.insert('(' as u32, TokenType::OpenParen);
        table.insert(')' as u32, TokenType::CloseParen);
        table.insert('+' as u32, TokenType::BinaryOperator);
        table.insert('-' as u32, TokenType::BinaryOperator);
        table.insert('*' as u32, TokenType::BinaryOperator);
        table.insert('/' as u32, TokenType::BinaryOperator);
        table.insert('{' as u32, TokenType::OpenCurly);
        table.insert('}' as u32, TokenType::CloseCurly);
        table.insert(',' as u32, TokenType::Comma);
        assert(table@ =~= punctuation_table());
        table
    }
}

/// The characters that separate tokens and form none.
pub open spec fn skippable_characters() -> Seq<char> {
    seq![' ', '\t', '\r', '\n']
}

/// `c` is a space, a tab, a carriage return or a line feed.
pub open spec fn is_skippable(c: char) -> bool {
    c == ' ' || c == '\t' || c == '\r' || c == '\n'
}

/// The list of skippable characters.
pub struct SkippableCharacters {}

impl SkippableCharacters {
    /// The skippable characters, each once.
    pub fn get() -> (list: Vec<char>)
        ensures
            list@ == skippable_characters(),
            forall|c: char| list@.contains(c) <==> is_skippable(c),
    {
        let mut list: Vec<char> = Vec::new();
        list.push(' ');
        list.push('\t');
        list.push('\r');
        list.push('\n');
        assert(list@ =~= skippable_characters());
        assert(list@[0] == ' ' && list@[1] == '\t' && list@[2] == '\r' && list@[3] == '\n');
        list
    }

    /// Tells whether `c` occurs in `list`.
    pub fn contains(list: &Vec<char>, c: char) -> (found: bool)
        ensures
            found == list@.contains(c),
    {
        let mut i: usize = 0;
        while i < list.len()
            invariant
                i <= list.len(),
                forall|j: int| 0 <= j < i ==> list@[j] != c,
            decreases list.len() - i,
        {
            if list[i] == c {
                return true;
            }
            i += 1;
        }
        false
    }
}


/// `c` may start an identifier or a keyword.
pub open spec fn is_word_start(c: char) -> bool {
    is_letter(c) || c == '_'
}

/// `c` may continue an identifier or a keyword.
pub open spec fn is_word_part(c: char) -> bool {
    is_letter(c) || is_digit(c) || c == '_'
}

/// The end of the longest run of word characters of `src` that begins at
/// `from`.
pub open spec fn word_end(src: Seq<char>, from: int) -> int
    decreases src.len() - from,
{
    if 0 <= from < src.len() && is_word_part(src[from]) {
        word_end(src, from + 1)
    } else {
        from
    }
}

/// The end of the longest run of digits of `src` that begins at `from`.
pub open spec fn number_end(src: Seq<char>, from: int) -> int
    decreases src.len() - from,
{
    if 0 <= from < src.len() && is_digit(src[from]) {
        number_end(src, from + 1)
    } else {
        from
    }
}

/// A run of word characters ends inside the source, holds word characters
/// only, and cannot be extended.
pub proof fn lemma_word_end(src: Seq<char>, from: int)
    requires
        0 <= from <= src.len(),
    ensures
        from <= word_end(src, from) <= src.len(),
        forall|i: int| from <= i < word_end(src, from) ==> is_word_part(#[trigger] src[i]),
        word_end(src, from) < src.len() ==> !is_word_part(src[word_end(src, from)]),
    decreases src.len() - from,
{
    if from < src.len() && is_word_part(src[from]) {
        lemma_word_end(src, from + 1);
    }
}

/// A run of digits ends inside the source, holds digits only, and cannot be
/// extended.
pub proof fn lemma_number_end(src: Seq<char>, from: int)
    requires
        0 <= from <= src.len(),
    ensures
        from <= number_end(src, from) <= src.len(),
        forall|i: int| from <= i < number_end(src, from) ==> is_digit(#[trigger] src[i]),
        number_end(src, from) < src.len() ==> !is_digit(src[number_end(src, from)]),
    decreases src.len() - from,
{
    if from < src.len() && is_digit(src[from]) {
        lemma_number_end(src, from + 1);
    }
}

/// Where the token that begins at `pos` ends: words and numbers run as far
/// as they can, any other token is one character long.
pub open spec fn token_end(src: Seq<char>, pos: int) -> int {
    if is_word_start(src[pos]) {
        word_end(src, pos + 1)
    } else if is_digit(src[pos]) {
        number_end(src, pos + 1)
    } else {
        pos + 1
    }
}

/// The kind of the token that begins at `pos`, or `None` where the character
/// there begins no token.
pub open spec fn token_kind(src: Seq<char>, pos: int) -> Option<TokenType> {
    if is_word_start(src[pos]) {
        Some(word_kind(src.subrange(pos, token_end(src, pos))))
    } else if is_digit(src[pos]) {
        Some(TokenType::NumericLiteral)
    } else {
        punctuation_kind(src[pos])
    }
}

/// The token that closes every token sequence.
pub open spec fn eof_token() -> TokenView {
    TokenView { kind: TokenType::EOF, lexeme: seq!['E', 'O', 'F'] }
}

/// The tokens `prefix` followed by those of `rest`, or the error of `rest`.
pub open spec fn followed_by(
    prefix: Seq<TokenView>,
    rest: Result<Seq<TokenView>, LexError>,
) -> Result<Seq<TokenView>, LexError> {
    match rest {
        Ok(tokens) => Ok(prefix + tokens),
        Err(error) => Err(error),
    }
}

/// A token ends after the position at which it begins, and inside the source.
pub proof fn lemma_token_end(src: Seq<char>, pos: int)
    requires
        0 <= pos < src.len(),
    ensures
        pos < token_end(src, pos) <= src.len(),
{
    lemma_word_end(src, pos + 1);
    lemma_number_end(src, pos + 1);
}

/// The tokens of `src` from position `pos` on: skippable characters form no
/// token, every other character begins one or is an error, and the
/// end-of-input token closes the sequence.
pub open spec fn lex_from(src: Seq<char>, pos: int) -> Result<Seq<TokenView>, LexError>
    decreases src.len() - pos,
{
    if pos < 0 || pos >= src.len() {
        Ok(seq![eof_token()])
    } else if is_skippable(src[pos]) {
        lex_from(src, pos + 1)
    } else {
        match token_kind(src, pos) {
            Some(kind) => {
                proof {
                    lemma_token_end(src, pos);
                }
                followed_by(
                    seq![TokenView { kind, lexeme: src.subrange(pos, token_end(src, pos)) }],
                    lex_from(src, token_end(src, pos)),
                )
            },
            None => Err(LexError { character: src[pos], position: pos as usize }),
        }
    }
}

/// The tokens of a whole source text.
pub open spec fn lex(src: Seq<char>) -> Result<Seq<TokenView>, LexError> {
    lex_from(src, 0)
}

/// Tells whether `c` may continue an identifier or a keyword.
fn char_is_word_part(c: char) -> (b: bool)
    ensures
        b == is_word_part(c),
{
    char_is_letter(c) || char_is_digit(c) || c == '_'
}

/// Scans the longest run of word characters that begins at `from`.
fn scan_word(chars: &Vec<char>, from: usize) -> (end: usize)
    requires
        from <= chars.len(),
    ensures
        end == word_end(chars@, from as int),
        from <= end <= chars.len(),
{
    let mut end: usize = from;
    while end < chars.len() && char_is_word_part(chars[end])
        invariant
            from <= end <= chars.len(),
            word_end(chars@, from as int) == word_end(chars@, end as int),
        decreases chars.len() - end,
    {
        end += 1;
    }
    end
}

/// Scans the longest run of digits that begins at `from`.
fn scan_number(chars: &Vec<char>, from: usize) -> (end: usize)
    requires
        from <= chars.len(),
    ensures
        end == number_end(chars@, from as int),
        from <= end <= chars.len(),
{
    let mut end: usize = from;
    while end < chars.len() && char_is_digit(chars[end])
        invariant
            from <= end <= chars.len(),
            number_end(chars@, from as int) == number_end(chars@, end as int),
        decreases chars.len() - end,
    {
        end += 1;
    }
    end
}

/// The token of kind `kind` whose lexeme is the characters of `src` from
/// `from` up to `to`.
fn token_of(src: &str, kind: TokenType, from: usize, to: usize) -> (token: Token)
    requires
        from <= to <= src@.len(),
    ensures
        token@ == (TokenView { kind, lexeme: src@.subrange(from as int, to as int) }),
{
    Token::new(kind, String::from_str(src.substring_char(from, to)))
}

/// Splits `src` into tokens. Spaces, tabs, carriage returns and line feeds
/// separate tokens; a character that can begin no token stops the scan with
/// an error that names it and its position.
pub fn tokenize(src: String) -> (result: Result<Vec<Token>, LexError>)
    ensures
        match result {
            Ok(tokens) => lex(src@) == Ok::<Seq<TokenView>, LexError>(token_views(tokens@)),
            Err(error) => lex(src@) == Err::<Seq<TokenView>, LexError>(error),
        },
        result is Ok <==> forall|i: int| 0 <= i < src@.len() ==> is_source_char(#[trigger] src@[i]),
        result matches Ok(tokens) ==> {
            &&& tokens@.len() > 0
            &&& tokens@.last()@ == eof_token()
            &&& forall|i: int| 0 <= i < tokens@.len() - 1 ==> (#[trigger] tokens@[i]).kind
                != TokenType::EOF
            &&& lexemes(token_views(tokens@).drop_last()).flatten() == visible(src@)
        },
        result matches Err(error) ==> {
            &&& error.position < src@.len()
            &&& error.character == src@[error.position as int]
            &&& !is_source_char(error.character)
            &&& forall|i: int| 0 <= i < error.position ==> is_source_char(#[trigger] src@[i])
        },
{
    let text = src.as_str();
    let chars = chars_of(text);
    proof {
        assert(src@.len() == chars.len());
        lemma_lex_reconstructs(src@);
        lemma_lex_outcome(src@);
        lemma_lex_single_eof(src@);
    }
    let keywords = Keywords::get();
    let punctuation = SinglecharTokens::get();
    let skippable = SkippableCharacters::get();
    let mut tokens: Vec<Token> = Vec::new();
    let mut pos: usize = 0;
    assert(lex(src@) is Ok ==> token_views(tokens@) + lex(src@)->Ok_0 =~= lex(src@)->Ok_0);
    while pos < chars.len()
        invariant
            chars@ == src@,
            text@ == src@,
            pos <= chars.len(),
            keyword_views(keywords@) == keyword_table(),
            punctuation@ == punctuation_table(),
            forall|c: char| skippable@.contains(c) <==> is_skippable(c),
            lex(src@) == followed_by(token_views(tokens@), lex_from(src@, pos as int)),
        decreases chars.len() - pos,
    {
        let c = chars[pos];
        let ghost before = token_views(tokens@);
        let end: usize;
        if char_is_letter(c) || c == '_' {
            end = scan_word(&chars, pos + 1);
            let mut token = token_of(text, TokenType::Identifier, pos, end);
            if let Some(kind) = Keywords::find(&keywords, &token.lexeme) {
                token.kind = kind;
            }
            tokens.push(token);
        } else if char_is_digit(c) {
            end = scan_number(&chars, pos + 1);
            tokens.push(token_of(text, TokenType::NumericLiteral, pos, end));
        } else if let Some(kind) = punctuation.get(&(c as u32)) {
            end = pos + 1;
            tokens.push(token_of(text, *kind, pos, end));
        } else if SkippableCharacters::contains(&skippable, c) {
            pos += 1;
            continue ;
        } else {
            proof {
                assert(src@.len() == chars.len());
                lemma_lex_outcome(src@);
            }
            return Err(LexError { character: c, position: pos });
        }
        proof {
            let token = tokens@.last()@;
            let rest = lex_from(src@, end as int);
            assert(!is_skippable(c));
            assert(token_kind(src@, pos as int) == Some(token.kind));
            assert(end == token_end(src@, pos as int));
            assert(lex_from(src@, pos as int) == followed_by(seq![token], rest));
            assert(token_views(tokens@) =~= before + seq![token]);
            if rest is Ok {
                assert(before + (seq![token] + rest->Ok_0) =~= (before + seq![token]) + rest->Ok_0);
            }
        }
        pos = end;
    }
    let eof = String::from_str("EOF");
    proof {
        reveal_strlit("EOF");
        assert(eof@ =~= eof_token().lexeme);
    }
    let ghost before = token_views(tokens@);
    tokens.push(Token::new(TokenType::EOF, eof));
    proof {
        assert(token_views(tokens@) =~= before + seq![eof_token()]);
        assert forall|i: int| 0 <= i < tokens@.len() - 1 implies (#[trigger] tokens@[i]).kind
            != TokenType::EOF by {
            assert(token_views(tokens@)[i].kind == tokens@[i].kind);
        }
    }
    Ok(tokens)
}


impl Boxable for Token {

}

impl Boxable for TokenType {

}

impl Variant for TokenType {
    open spec fn variant_index(&self) -> nat {
        match self {
            TokenType::Equals => 0,
            TokenType::BinaryOperator => 1,
            TokenType::Semicolon => 2,
            TokenType::OpenParen => 3,
            TokenType::CloseParen => 4,
            TokenType::Identifier => 5,
            TokenType::NumericLiteral => 6,
            TokenType::Let => 7,
            TokenType::Const => 8,
            TokenType::Function => 9,
            TokenType::Return => 10,
            TokenType::Comma => 11,
            TokenType::OpenCurly => 12,
            TokenType::CloseCurly => 13,
            TokenType::EOF => 14,
        }
    }

    fn variant(&self) -> (index: u8) {
        match self {
            TokenType::Equals => 0,
            TokenType::BinaryOperator => 1,
            TokenType::Semicolon => 2,
            TokenType::OpenParen => 3,
            TokenType::CloseParen => 4,
            TokenType::Identifier => 5,
            TokenType::NumericLiteral => 6,
            TokenType::Let => 7,
            TokenType::Const => 8,
            TokenType::Function => 9,
            TokenType::Return => 10,
            TokenType::Comma => 11,
            TokenType::OpenCurly => 12,
            TokenType::CloseCurly => 13,
            TokenType::EOF => 14,
        }
    }
}


/// The name of a token kind, as it is written in this library.
pub open spec fn kind_name(kind: TokenType) -> Seq<char> {
    match kind {
        TokenType::Equals => "Equals"@,
        TokenType::BinaryOperator => "BinaryOperator"@,
        TokenType::Semicolon => "Semicolon"@,
        TokenType::OpenParen => "OpenParen"@,
        TokenType::CloseParen => "CloseParen"@,
        TokenType::Identifier => "Identifier"@,
        TokenType::NumericLiteral => "NumericLiteral"@,
        TokenType::Let => "Let"@,
        TokenType::Const => "Const"@,
        TokenType::Function => "Function"@,
        TokenType::Return => "Return"@,
        TokenType::Comma => "Comma"@,
        TokenType::OpenCurly => "OpenCurly"@,
        TokenType::CloseCurly => "CloseCurly"@,
        TokenType::EOF => "EOF"@,
    }
}

impl TokenType {
    /// The name of the kind.
    pub fn name(&self) -> (text: &'static str)
        ensures
            text@ == kind_name(*self),
    {
        match self {
            TokenType::Equals => "Equals",
            TokenType::BinaryOperator => "BinaryOperator",
            TokenType::Semicolon => "Semicolon",
            TokenType::OpenParen => "OpenParen",
            TokenType::CloseParen => "CloseParen",
            TokenType::Identifier => "Identifier",
            TokenType::NumericLiteral => "NumericLiteral",
            TokenType::Let => "Let",
            TokenType::Const => "Const",
            TokenType::Function => "Function",
            TokenType::Return => "Return",
            TokenType::Comma => "Comma",
            TokenType::OpenCurly => "OpenCurly",
            TokenType::CloseCurly => "CloseCurly",
            TokenType::EOF => "EOF",
        }
    }
}

} // verus!
