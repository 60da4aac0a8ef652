use gamemaker_plus::box_utils::Boxable;
use gamemaker_plus::compiler::tokenizer::{
    tokenize, Keywords, LexError, SinglecharTokens, SkippableCharacters, Token, TokenType,
};
use gamemaker_plus::enum_utils::enum_weak_equals;

fn token(kind: TokenType, lexeme: &str) -> Token {
    Token::new(kind, lexeme.to_string())
}

fn kinds(source: &str) -> Vec<TokenType> {
    tokenize(source.to_string()).unwrap().iter().map(|t| t.kind).collect()
}

fn lexemes(source: &str) -> Vec<String> {
    tokenize(source.to_string()).unwrap().iter().map(|t| t.lexeme.clone()).collect()
}

#[test]
fn tokenizes_a_declaration() {
    let tokens = tokenize("let x = 1 + 2;".to_string()).unwrap();
    let expected = vec![
        token(TokenType::Let, "let"),
        token(TokenType::Identifier, "x"),
        token(TokenType::Equals, "="),
        token(TokenType::NumericLiteral, "1"),
        token(TokenType::BinaryOperator, "+"),
        token(TokenType::NumericLiteral, "2"),
        token(TokenType::Semicolon, ";"),
        token(TokenType::EOF, "EOF"),
    ];
    assert_eq!(tokens, expected);
}

#[test]
fn rejects_an_unknown_character() {
    let outcome = tokenize("#".to_string());
    assert_eq!(outcome, Err(LexError { character: '#', position: 0 }));
}

#[test]
fn reports_the_first_unknown_character_with_its_position() {
    let outcome = tokenize("let a = 1 ? 2 # 3".to_string());
    assert_eq!(outcome, Err(LexError { character: '?', position: 10 }));
}

#[test]
fn counts_positions_in_characters() {
    let outcome = tokenize("a é b".to_string());
    assert_eq!(outcome, Err(LexError { character: 'é', position: 2 }));
}

#[test]
fn empty_input_is_one_end_of_input_token() {
    assert_eq!(tokenize(String::new()).unwrap(), vec![token(TokenType::EOF, "EOF")]);
}

#[test]
fn blank_input_is_one_end_of_input_token() {
    assert_eq!(tokenize(" \t\r\n ".to_string()).unwrap(), vec![token(TokenType::EOF, "EOF")]);
}

#[test]
fn every_keyword_has_its_kind() {
    assert_eq!(
        kinds("let const function return"),
        vec![
            TokenType::Let,
            TokenType::Const,
            TokenType::Function,
            TokenType::Return,
            TokenType::EOF
        ]
    );
}

#[test]
fn keywords_are_matched_on_whole_words_only() {
    let tokens = tokenize("letx returning _let let_ Let".to_string()).unwrap();
    let expected = vec![
        token(TokenType::Identifier, "letx"),
        token(TokenType::Identifier, "returning"),
        token(TokenType::Identifier, "_let"),
        token(TokenType::Identifier, "let_"),
        token(TokenType::Identifier, "Let"),
        token(TokenType::EOF, "EOF"),
    ];
    assert_eq!(tokens, expected);
}

#[test]
fn identifiers_may_hold_digits_and_underscores() {
    assert_eq!(lexemes("_a1_b2 x9"), vec!["_a1_b2", "x9", "EOF"]);
    assert_eq!(kinds("_a1_b2 x9"), vec![TokenType::Identifier, TokenType::Identifier, TokenType::EOF]);
}

#[test]
fn a_number_ends_where_its_digits_end() {
    let tokens = tokenize("123abc 007".to_string()).unwrap();
    let expected = vec![
        token(TokenType::NumericLiteral, "123"),
        token(TokenType::Identifier, "abc"),
        token(TokenType::NumericLiteral, "007"),
        token(TokenType::EOF, "EOF"),
    ];
    assert_eq!(tokens, expected);
}

#[test]
fn every_punctuation_character_is_a_token() {
    let tokens = tokenize(";=(){},+-*/".to_string()).unwrap();
    let expected = vec![
        token(TokenType::Semicolon, ";"),
        token(TokenType::Equals, "="),
        token(TokenType::OpenParen, "("),
        token(TokenType::CloseParen, ")"),
        token(TokenType::OpenCurly, "{"),
        token(TokenType::CloseCurly, "}"),
        token(TokenType::Comma, ","),
        token(TokenType::BinaryOperator, "+"),
        token(TokenType::BinaryOperator, "-"),
        token(TokenType::BinaryOperator, "*"),
        token(TokenType::BinaryOperator, "/"),
        token(TokenType::EOF, "EOF"),
    ];
    assert_eq!(tokens, expected);
}

#[test]
fn tokens_need_no_space_between_them() {
    assert_eq!(lexemes("add(a,b)"), vec!["add", "(", "a", ",", "b", ")", "EOF"]);
}

#[test]
fn lexemes_spell_the_source_without_its_white_space() {
    let source = "function add(a, b) {\n\treturn a + b * 12;\r\n}\n";
    let tokens = tokenize(source.to_string()).unwrap();
    assert_eq!(tokens.last().unwrap().kind, TokenType::EOF);
    let spelled: String =
        tokens[..tokens.len() - 1].iter().map(|t| t.lexeme.as_str()).collect();
    let visible: String =
        source.chars().filter(|c| !matches!(c, ' ' | '\t' | '\r' | '\n')).collect();
    assert_eq!(spelled, visible);
    assert_eq!(spelled, "functionadd(a,b){returna+b*12;}");
}

#[test]
fn only_the_last_token_is_the_end_of_input() {
    let tokens = tokenize("EOF let EOF = 1;".to_string()).unwrap();
    let count = tokens.iter().filter(|t| t.kind == TokenType::EOF).count();
    assert_eq!(count, 1);
    assert_eq!(tokens[0], token(TokenType::Identifier, "EOF"));
}

#[test]
fn writing_the_lexemes_out_and_tokenizing_again_changes_nothing() {
    let source = "let  total=price*2+tax ;function f(a,b){return a/b;}";
    let tokens = tokenize(source.to_string()).unwrap();
    let words: Vec<&str> =
        tokens[..tokens.len() - 1].iter().map(|t| t.lexeme.as_str()).collect();
    let again = tokenize(words.join(" ")).unwrap();
    assert_eq!(again, tokens);
}

#[test]
fn the_keyword_table_holds_the_four_reserved_words() {
    let table = Keywords::get();
    let expected = vec![
        ("let".to_string(), TokenType::Let),
        ("const".to_string(), TokenType::Const),
        ("function".to_string(), TokenType::Function),
        ("return".to_string(), TokenType::Return),
    ];
    assert_eq!(table, expected);
}

#[test]
fn keyword_lookup_finds_reserved_words_only() {
    let table = Keywords::get();
    assert_eq!(Keywords::find(&table, &"const".to_string()), Some(TokenType::Const));
    assert_eq!(Keywords::find(&table, &"return".to_string()), Some(TokenType::Return));
    assert_eq!(Keywords::find(&table, &"retur".to_string()), None);
    assert_eq!(Keywords::find(&table, &"".to_string()), None);
}

#[test]
fn the_punctuation_table_is_keyed_by_code_point() {
    let table = SinglecharTokens::get();
    assert_eq!(table.len(), 11);
    assert_eq!(table.get(&(';' as u32)), Some(&TokenType::Semicolon));
    assert_eq!(table.get(&('=' as u32)), Some(&TokenType::Equals));
    assert_eq!(table.get(&('(' as u32)), Some(&TokenType::OpenParen));
    assert_eq!(table.get(&(')' as u32)), Some(&TokenType::CloseParen));
    assert_eq!(table.get(&('{' as u32)), Some(&TokenType::OpenCurly));
    assert_eq!(table.get(&('}' as u32)), Some(&TokenType::CloseCurly));
    assert_eq!(table.get(&(',' as u32)), Some(&TokenType::Comma));
    assert_eq!(table.get(&('+' as u32)), Some(&TokenType::BinaryOperator));
    assert_eq!(table.get(&('-' as u32)), Some(&TokenType::BinaryOperator));
    assert_eq!(table.get(&('*' as u32)), Some(&TokenType::BinaryOperator));
    assert_eq!(table.get(&('/' as u32)), Some(&TokenType::BinaryOperator));
    assert_eq!(table.get(&('a' as u32)), None);
}

#[test]
fn the_skippable_characters_are_four() {
    let list = SkippableCharacters::get();
    assert_eq!(list, vec![' ', '\t', '\r', '\n']);
    assert!(SkippableCharacters::contains(&list, '\t'));
    assert!(!SkippableCharacters::contains(&list, 'x'));
}

#[test]
fn a_token_is_made_of_its_kind_and_lexeme() {
    let made = Token::new(TokenType::Identifier, "abc".to_string());
    assert_eq!(made.kind, TokenType::Identifier);
    assert_eq!(made.lexeme, "abc");
}

#[test]
fn boxing_a_token_copies_it() {
    let made = token(TokenType::Comma, ",");
    assert_eq!(*made.to_box(), made);
    assert_eq!(*Boxable::to_box(&made), made);
    assert_eq!(*Boxable::to_box(&TokenType::Let), TokenType::Let);
    assert_eq!(made.clone(), made);
}

#[test]
fn tokens_differ_by_kind_or_by_lexeme() {
    assert_ne!(token(TokenType::Identifier, "a"), token(TokenType::Identifier, "b"));
    assert_ne!(token(TokenType::Identifier, "let"), token(TokenType::Let, "let"));
}

#[test]
fn token_kinds_are_weakly_equal_to_themselves_only() {
    assert!(enum_weak_equals(&TokenType::Let, &TokenType::Let));
    assert!(!enum_weak_equals(&TokenType::Let, &TokenType::Const));
    assert!(!enum_weak_equals(&TokenType::EOF, &TokenType::Equals));
}

#[test]
fn token_kinds_have_names() {
    assert_eq!(TokenType::Let.name(), "Let");
    assert_eq!(TokenType::NumericLiteral.name(), "NumericLiteral");
    assert_eq!(TokenType::EOF.name(), "EOF");
    assert_eq!(TokenType::CloseCurly.name(), "CloseCurly");
}
