use gamemaker_plus::compiler::ast::Node;
use gamemaker_plus::compiler::grammar::Production;
use gamemaker_plus::compiler::parser::{
    end_of_input, find_close, find_first, find_segment_end, parse, parse_additive,
    parse_arguments, parse_binary_expr, parse_expression, parse_function_call,
    parse_function_declaration, parse_function_parameters, parse_highcalc, parse_primary,
    parse_return, parse_statement, parse_variable_declaration, ParseError, ParseMessage,
};
use gamemaker_plus::compiler::tokenizer::{tokenize, Token, TokenType};

fn token(kind: TokenType, lexeme: &str) -> Token {
    Token::new(kind, lexeme.to_string())
}

fn tokens_of(source: &str) -> Vec<Token> {
    tokenize(source.to_string()).unwrap()
}

/// The tokens of `source` without the closing end-of-input token.
fn window(source: &str) -> Vec<Token> {
    let mut tokens = tokens_of(source);
    tokens.pop();
    tokens
}

fn parse_source(source: &str) -> Result<Node, ParseError> {
    parse(tokens_of(source))
}

fn error(expected: Production, kind: TokenType, lexeme: &str) -> ParseError {
    ParseError { expected_production: expected, found_kind: kind, found_lexeme: lexeme.to_string() }
}

fn at_end(expected: Production) -> ParseError {
    error(expected, TokenType::EOF, "EOF")
}

fn number(value: i32) -> Node {
    Node::NumericLiteral(value)
}

fn name(text: &str) -> Node {
    Node::Identifier(text.to_string())
}

fn operator(symbol: &str) -> Node {
    Node::BinaryOperator(symbol.to_string())
}

fn binary(left: Node, symbol: &str, right: Node) -> Node {
    Node::BinaryExpression(Box::new(left), Box::new(operator(symbol)), Box::new(right))
}

fn boxed(nodes: Vec<Node>) -> Vec<Box<Node>> {
    nodes.into_iter().map(Box::new).collect()
}

fn program(statements: Vec<Node>) -> Node {
    Node::Program(boxed(statements))
}

fn declaration(kind: TokenType, variable: &str, value: Node) -> Node {
    Node::VariableDeclaration(
        Box::new(Node::DeclarationType(kind)),
        variable.to_string(),
        Box::new(value),
    )
}

fn call(callee: &str, arguments: Vec<Node>) -> Node {
    Node::FunctionCall(Box::new(name(callee)), Box::new(Node::Arguments(boxed(arguments))))
}

fn function(function_name: &str, parameters: &[&str], body: Vec<Node>) -> Node {
    let parameters = parameters.iter().map(|p| Node::FunctionParameter(p.to_string())).collect();
    Node::FunctionDeclaration(
        function_name.to_string(),
        boxed(parameters),
        Box::new(program(body)),
    )
}

fn return_of(value: Node) -> Node {
    Node::ReturnStatement(Box::new(value))
}

fn outcome(result: Result<ParseMessage, ParseError>) -> Result<(usize, Node), ParseError> {
    result.map(|message| (message.0, message.1))
}

#[test]
fn parses_a_declaration() {
    let tree = parse_source("let x = 1 + 2;").unwrap();
    let expected =
        program(vec![declaration(TokenType::Let, "x", binary(number(1), "+", number(2)))]);
    assert_eq!(tree, expected);
}

#[test]
fn multiplication_binds_tighter_than_addition() {
    let tree = parse_source("let x = 1 + 2 * 3;").unwrap();
    let expected = program(vec![declaration(
        TokenType::Let,
        "x",
        binary(number(1), "+", binary(number(2), "*", number(3))),
    )]);
    assert_eq!(tree, expected);
}

#[test]
fn parses_a_function_declaration() {
    let tree = parse_source("function add(a, b) { return a + b; }").unwrap();
    let expected = program(vec![function(
        "add",
        &["a", "b"],
        vec![return_of(binary(name("a"), "+", name("b")))],
    )]);
    assert_eq!(tree, expected);
}

#[test]
fn parses_a_call_window() {
    let result = outcome(parse_function_call(&window("add(1, 2)")));
    assert_eq!(result, Ok((6, call("add", vec![number(1), number(2)]))));
    let result = outcome(parse_expression(&window("add(1, 2)")));
    assert_eq!(result, Ok((6, call("add", vec![number(1), number(2)]))));
}

#[test]
fn a_missing_equals_sign_is_reported_with_the_token_in_its_place() {
    let result = parse_source("let x 1;");
    assert_eq!(result, Err(error(Production::Equals, TokenType::NumericLiteral, "1")));
}

#[test]
fn an_empty_token_sequence_is_an_empty_program() {
    assert_eq!(parse(vec![end_of_input()]), Ok(program(vec![])));
    assert_eq!(parse(vec![]), Ok(program(vec![])));
}

#[test]
fn parsing_stops_at_the_first_end_of_input() {
    let mut tokens = tokens_of("let a = 1;");
    tokens.extend(tokens_of("let b = 2;"));
    assert_eq!(parse(tokens), Ok(program(vec![declaration(TokenType::Let, "a", number(1))])));
}

#[test]
fn a_sequence_without_end_of_input_is_read_to_its_end() {
    let tree = parse(window("const a = 1; const b = a;")).unwrap();
    let expected = program(vec![
        declaration(TokenType::Const, "a", number(1)),
        declaration(TokenType::Const, "b", name("a")),
    ]);
    assert_eq!(tree, expected);
}

#[test]
fn lone_semicolons_add_nothing() {
    assert_eq!(parse_source(";;;"), Ok(program(vec![])));
    let tree = parse_source("; let a = 1;; ;const b = 2; ;").unwrap();
    let expected = program(vec![
        declaration(TokenType::Let, "a", number(1)),
        declaration(TokenType::Const, "b", number(2)),
    ]);
    assert_eq!(tree, expected);
    assert_eq!(outcome(parse_statement(&tokens_of(";"))), Ok((1, Node::Ignore)));
}

#[test]
fn parsed_trees_hold_no_sentinel() {
    let tree = parse_source("; function f(a) { ; return g(a, 1 + 2); ; } ; let x = f(3);").unwrap();
    assert!(tree.is_clean());
}

#[test]
fn statements_are_chosen_by_their_first_token() {
    assert_eq!(
        outcome(parse_statement(&tokens_of("const k = 7; let z = 1;"))),
        Ok((5, declaration(TokenType::Const, "k", number(7))))
    );
    assert_eq!(
        outcome(parse_statement(&tokens_of("return 1; x"))),
        Ok((3, return_of(number(1))))
    );
    assert_eq!(
        outcome(parse_statement(&tokens_of("f(x); y"))),
        Ok((4, call("f", vec![name("x")])))
    );
    assert_eq!(
        outcome(parse_statement(&tokens_of("function f() {} let"))),
        Ok((6, function("f", &[], vec![])))
    );
}

#[test]
fn a_token_that_starts_no_statement_is_an_error() {
    assert_eq!(parse_source("1;"), Err(error(Production::Statement, TokenType::NumericLiteral, "1")));
    assert_eq!(parse_source("let a = 1; )"), Err(error(Production::Statement, TokenType::CloseParen, ")")));
    assert_eq!(parse_source("= 1;"), Err(error(Production::Statement, TokenType::Equals, "=")));
    assert_eq!(outcome(parse_statement(&vec![])), Err(at_end(Production::Statement)));
}

#[test]
fn an_expression_statement_is_followed_by_its_semicolon_as_a_statement() {
    let tree = parse_source("print(1, x); y; a + 1;").unwrap();
    let expected = program(vec![
        call("print", vec![number(1), name("x")]),
        name("y"),
        binary(name("a"), "+", number(1)),
    ]);
    assert_eq!(tree, expected);
}

#[test]
fn chains_of_one_level_group_from_the_left() {
    let tree = outcome(parse_expression(&window("8 / 4 / 2 * 3")));
    let expected = binary(binary(binary(number(8), "/", number(4)), "/", number(2)), "*", number(3));
    assert_eq!(tree, Ok((7, expected)));
    let tree = outcome(parse_expression(&window("8 - 4 - 2 + 1")));
    let expected = binary(binary(binary(number(8), "-", number(4)), "-", number(2)), "+", number(1));
    assert_eq!(tree, Ok((7, expected)));
}

#[test]
fn both_levels_mix() {
    let tree = outcome(parse_additive(&window("a * b + c / d - e")));
    let expected = binary(
        binary(binary(name("a"), "*", name("b")), "+", binary(name("c"), "/", name("d"))),
        "-",
        name("e"),
    );
    assert_eq!(tree, Ok((9, expected)));
}

#[test]
fn a_multiplicative_chain_stops_at_the_first_other_token() {
    let tree = outcome(parse_highcalc(&window("2 * 3 + 4")));
    assert_eq!(tree, Ok((3, binary(number(2), "*", number(3)))));
    let tree = outcome(parse_highcalc(&window("2 3")));
    assert_eq!(tree, Ok((1, number(2))));
}

#[test]
fn an_expression_stops_at_the_first_token_it_cannot_use() {
    assert_eq!(outcome(parse_expression(&window("1 + 2 ; 3"))), Ok((3, binary(number(1), "+", number(2)))));
    assert_eq!(outcome(parse_expression(&window("a b"))), Ok((1, name("a"))));
    assert_eq!(outcome(parse_expression(&window("f(1) + 2"))), Ok((4, call("f", vec![number(1)]))));
}

#[test]
fn an_operator_without_its_right_operand_is_an_error() {
    assert_eq!(outcome(parse_expression(&window("1 +"))), Err(at_end(Production::Primary)));
    assert_eq!(outcome(parse_expression(&window("1 *"))), Err(at_end(Production::Primary)));
    assert_eq!(
        outcome(parse_expression(&window("1 + ;"))),
        Err(error(Production::Primary, TokenType::Semicolon, ";"))
    );
    assert_eq!(
        outcome(parse_expression(&window("1 * )"))),
        Err(error(Production::Primary, TokenType::CloseParen, ")"))
    );
}

#[test]
fn an_empty_expression_is_an_error() {
    assert_eq!(outcome(parse_expression(&vec![])), Err(at_end(Production::Primary)));
    assert_eq!(outcome(parse_additive(&vec![])), Err(at_end(Production::Primary)));
    assert_eq!(outcome(parse_highcalc(&vec![])), Err(at_end(Production::Primary)));
}

#[test]
fn primaries_are_literals_identifiers_and_lone_operators() {
    assert_eq!(outcome(parse_primary(&token(TokenType::NumericLiteral, "12"))), Ok((1, number(12))));
    assert_eq!(outcome(parse_primary(&token(TokenType::Identifier, "ab"))), Ok((1, name("ab"))));
    assert_eq!(outcome(parse_primary(&token(TokenType::BinaryOperator, "-"))), Ok((1, operator("-"))));
    assert_eq!(outcome(parse_expression(&window("+"))), Ok((1, operator("+"))));
    assert_eq!(
        outcome(parse_primary(&token(TokenType::Comma, ","))),
        Err(error(Production::Primary, TokenType::Comma, ","))
    );
    assert_eq!(
        outcome(parse_primary(&token(TokenType::Let, "let"))),
        Err(error(Production::Primary, TokenType::Let, "let"))
    );
}

#[test]
fn a_literal_has_to_fit_in_32_bits() {
    assert_eq!(parse_source("let x = 2147483647;"), Ok(program(vec![declaration(TokenType::Let, "x", number(2147483647))])));
    assert_eq!(
        parse_source("let x = 2147483648;"),
        Err(error(Production::NumericLiteral, TokenType::NumericLiteral, "2147483648"))
    );
    assert_eq!(
        outcome(parse_primary(&token(TokenType::NumericLiteral, "-5"))),
        Err(error(Production::NumericLiteral, TokenType::NumericLiteral, "-5"))
    );
    assert_eq!(
        outcome(parse_primary(&token(TokenType::NumericLiteral, ""))),
        Err(error(Production::NumericLiteral, TokenType::NumericLiteral, ""))
    );
}

#[test]
fn a_binary_expression_accepts_any_operator_node() {
    let at = token(TokenType::BinaryOperator, "%");
    for symbol in ["+", "-", "*", "/", "%", ""] {
        let built = outcome(parse_binary_expr(&number(1), &operator(symbol), &name("b"), &at));
        assert_eq!(built, Ok((3, binary(number(1), symbol, name("b")))));
    }
}

#[test]
fn a_binary_expression_refuses_a_node_of_another_shape() {
    let at = token(TokenType::Identifier, "*");
    for refused in [name("*"), number(1), Node::Ignore, Node::Failure, program(vec![])] {
        let built = outcome(parse_binary_expr(&number(1), &refused, &number(2), &at));
        assert_eq!(built, Err(error(Production::BinaryOperator, TokenType::Identifier, "*")));
    }
}

#[test]
fn a_scaling_symbol_of_another_kind_is_refused_by_its_shape() {
    let tokens = vec![
        token(TokenType::NumericLiteral, "2"),
        token(TokenType::Identifier, "*"),
        token(TokenType::NumericLiteral, "3"),
    ];
    assert_eq!(
        outcome(parse_highcalc(&tokens)),
        Err(error(Production::BinaryOperator, TokenType::Identifier, "*"))
    );
    let tokens = vec![
        token(TokenType::NumericLiteral, "2"),
        token(TokenType::Comma, "/"),
        token(TokenType::NumericLiteral, "3"),
    ];
    assert_eq!(
        outcome(parse_highcalc(&tokens)),
        Err(error(Production::Primary, TokenType::Comma, "/"))
    );
}

#[test]
fn any_operator_token_joins_an_additive_chain() {
    let tokens = vec![
        token(TokenType::Identifier, "a"),
        token(TokenType::BinaryOperator, "%"),
        token(TokenType::Identifier, "b"),
    ];
    assert_eq!(outcome(parse_additive(&tokens)), Ok((3, binary(name("a"), "%", name("b")))));
}

#[test]
fn calls_nest() {
    let tree = outcome(parse_expression(&window("f(g(1, 2), h(), x + 1)")));
    let expected = call(
        "f",
        vec![
            call("g", vec![number(1), number(2)]),
            call("h", vec![]),
            binary(name("x"), "+", number(1)),
        ],
    );
    assert_eq!(tree, Ok((17, expected)));
}

#[test]
fn a_call_ends_at_the_parenthesis_that_closes_it() {
    let tree = outcome(parse_expression(&window("f(a) g(b)")));
    assert_eq!(tree, Ok((4, call("f", vec![name("a")]))));
    let tree = outcome(parse_expression(&window("f((a)")));
    assert_eq!(tree, Err(at_end(Production::CloseParen)));
    let tree = outcome(parse_expression(&window("f(")));
    assert_eq!(tree, Err(at_end(Production::CloseParen)));
}

#[test]
fn a_call_window_has_a_name_and_both_parentheses() {
    assert_eq!(outcome(parse_function_call(&window("f()"))), Ok((3, call("f", vec![]))));
    assert_eq!(
        outcome(parse_function_call(&window("1(2)"))),
        Err(error(Production::Identifier, TokenType::NumericLiteral, "1"))
    );
    assert_eq!(
        outcome(parse_function_call(&window("f 2)"))),
        Err(error(Production::OpenParen, TokenType::NumericLiteral, "2"))
    );
    assert_eq!(outcome(parse_function_call(&window("f("))), Err(at_end(Production::CloseParen)));
    assert_eq!(outcome(parse_function_call(&window("f"))), Err(at_end(Production::OpenParen)));
    assert_eq!(outcome(parse_function_call(&vec![])), Err(at_end(Production::Identifier)));
    assert_eq!(
        outcome(parse_function_call(&window("f(1, 2"))),
        Err(error(Production::CloseParen, TokenType::NumericLiteral, "2"))
    );
}

#[test]
fn arguments_are_split_at_commas_outside_brackets() {
    assert_eq!(parse_arguments(&vec![]), Ok(Node::Arguments(vec![])));
    assert_eq!(parse_arguments(&window("1")), Ok(Node::Arguments(boxed(vec![number(1)]))));
    assert_eq!(
        parse_arguments(&window("a, f(b, c), d * 2")),
        Ok(Node::Arguments(boxed(vec![
            name("a"),
            call("f", vec![name("b"), name("c")]),
            binary(name("d"), "*", number(2)),
        ])))
    );
}

#[test]
fn every_argument_has_to_fill_its_part() {
    assert_eq!(
        parse_arguments(&window("1 2")),
        Err(error(Production::Comma, TokenType::NumericLiteral, "2"))
    );
    assert_eq!(parse_arguments(&window("1,")), Err(at_end(Production::Primary)));
    assert_eq!(parse_arguments(&window(", 1")), Err(at_end(Production::Primary)));
    assert_eq!(parse_arguments(&window("1,,2")), Err(at_end(Production::Primary)));
    assert_eq!(
        parse_arguments(&window("1 ) , ( 2")),
        Err(error(Production::Comma, TokenType::CloseParen, ")"))
    );
    assert_eq!(parse_arguments(&window("1, g(2")), Err(at_end(Production::CloseParen)));
}

#[test]
fn a_segment_ends_at_the_first_comma_outside_brackets() {
    let tokens = window("f(a, b), { c, d }, e");
    assert_eq!(find_segment_end(&tokens, 0), 6);
    assert_eq!(find_segment_end(&tokens, 7), 12);
    assert_eq!(find_segment_end(&tokens, 13), 14);
    assert_eq!(find_segment_end(&tokens, 14), 14);
    assert_eq!(find_segment_end(&tokens, 3), 3);
}

#[test]
fn closing_brackets_are_found_by_depth() {
    let tokens = window("f ( ( a ) { ) } ) ) (");
    assert_eq!(find_close(&tokens, 1, TokenType::OpenParen, TokenType::CloseParen), Some(6));
    assert_eq!(find_close(&tokens, 2, TokenType::OpenParen, TokenType::CloseParen), Some(4));
    assert_eq!(find_close(&tokens, 5, TokenType::OpenCurly, TokenType::CloseCurly), Some(7));
    assert_eq!(find_close(&tokens, 10, TokenType::OpenParen, TokenType::CloseParen), None);
    assert_eq!(find_close(&tokens, 9, TokenType::OpenParen, TokenType::CloseParen), None);
    assert_eq!(find_close(&tokens, 11, TokenType::OpenParen, TokenType::CloseParen), None);
    assert_eq!(find_close(&tokens, 0, TokenType::OpenCurly, TokenType::CloseCurly), Some(7));
}

#[test]
fn the_first_token_of_a_kind_is_found() {
    let tokens = window("let a = b; c;");
    assert_eq!(find_first(&tokens, TokenType::Semicolon), 4);
    assert_eq!(find_first(&tokens, TokenType::Let), 0);
    assert_eq!(find_first(&tokens, TokenType::Comma), 7);
    assert_eq!(find_first(&vec![], TokenType::Comma), 0);
}

#[test]
fn a_declaration_reads_up_to_the_first_semicolon() {
    assert_eq!(
        outcome(parse_variable_declaration(&tokens_of("const big = a * 2 + b; let"))),
        Ok((
            9,
            declaration(
                TokenType::Const,
                "big",
                binary(binary(name("a"), "*", number(2)), "+", name("b")),
            )
        ))
    );
    assert_eq!(
        outcome(parse_variable_declaration(&tokens_of("const big = a * 2 + f(1); let"))),
        Err(error(Production::Semicolon, TokenType::OpenParen, "("))
    );
    assert_eq!(
        outcome(parse_variable_declaration(&tokens_of("let x = y; let"))),
        Ok((5, declaration(TokenType::Let, "x", name("y"))))
    );
    assert_eq!(
        outcome(parse_variable_declaration(&tokens_of("let x = f(1, 2);"))),
        Ok((10, declaration(TokenType::Let, "x", call("f", vec![number(1), number(2)]))))
    );
}

#[test]
fn a_declaration_fails_on_the_first_token_out_of_place() {
    assert_eq!(
        outcome(parse_variable_declaration(&tokens_of("x = 1;"))),
        Err(error(Production::VariableDeclaration, TokenType::Identifier, "x"))
    );
    assert_eq!(
        outcome(parse_variable_declaration(&tokens_of("let 5 = 1;"))),
        Err(error(Production::Identifier, TokenType::NumericLiteral, "5"))
    );
    assert_eq!(
        outcome(parse_variable_declaration(&tokens_of("let x ;"))),
        Err(error(Production::Equals, TokenType::Semicolon, ";"))
    );
    assert_eq!(outcome(parse_variable_declaration(&window("let x = 1"))), Err(at_end(Production::Semicolon)));
    assert_eq!(outcome(parse_variable_declaration(&window("let x = ;"))), Err(at_end(Production::Primary)));
    assert_eq!(
        outcome(parse_variable_declaration(&window("let x = 1 2;"))),
        Err(error(Production::Semicolon, TokenType::NumericLiteral, "2"))
    );
    assert_eq!(
        outcome(parse_variable_declaration(&window("let x = f(1) + 2;"))),
        Err(error(Production::Semicolon, TokenType::BinaryOperator, "+"))
    );
    assert_eq!(outcome(parse_variable_declaration(&window("let"))), Err(at_end(Production::Identifier)));
    assert_eq!(outcome(parse_variable_declaration(&window("let x"))), Err(at_end(Production::Equals)));
}

#[test]
fn a_return_statement_needs_its_semicolon() {
    assert_eq!(
        outcome(parse_return(&tokens_of("return a * 2; x"))),
        Ok((5, return_of(binary(name("a"), "*", number(2)))))
    );
    assert_eq!(outcome(parse_return(&window("return a"))), Err(at_end(Production::Semicolon)));
    assert_eq!(
        outcome(parse_return(&window("return a b;"))),
        Err(error(Production::Semicolon, TokenType::Identifier, "b"))
    );
    assert_eq!(
        outcome(parse_return(&window("return ;"))),
        Err(error(Production::Primary, TokenType::Semicolon, ";"))
    );
    assert_eq!(
        outcome(parse_return(&window("a;"))),
        Err(error(Production::ReturnStatement, TokenType::Identifier, "a"))
    );
}

#[test]
fn parameters_are_names_separated_by_commas() {
    let none: Vec<Node> = vec![];
    assert_eq!(parse_function_parameters(&vec![]), Ok((0, none)));
    assert_eq!(
        parse_function_parameters(&window("a")),
        Ok((1, vec![Node::FunctionParameter("a".to_string())]))
    );
    assert_eq!(
        parse_function_parameters(&window("a, b, c")),
        Ok((
            5,
            vec![
                Node::FunctionParameter("a".to_string()),
                Node::FunctionParameter("b".to_string()),
                Node::FunctionParameter("c".to_string()),
            ]
        ))
    );
    assert_eq!(parse_function_parameters(&window("a,")), Err(at_end(Production::Identifier)));
    assert_eq!(
        parse_function_parameters(&window("a b")),
        Err(error(Production::Comma, TokenType::Identifier, "b"))
    );
    assert_eq!(
        parse_function_parameters(&window(", a")),
        Err(error(Production::Identifier, TokenType::Comma, ","))
    );
    assert_eq!(
        parse_function_parameters(&window("a, 1")),
        Err(error(Production::Identifier, TokenType::NumericLiteral, "1"))
    );
}

#[test]
fn function_bodies_are_programs_of_their_own() {
    let tree = parse_source(
        "function outer(a) { let b = a; function inner() { return b; } return inner(); } let c = 1;",
    )
    .unwrap();
    let expected = program(vec![
        function(
            "outer",
            &["a"],
            vec![
                declaration(TokenType::Let, "b", name("a")),
                function("inner", &[], vec![return_of(name("b"))]),
                return_of(call("inner", vec![])),
            ],
        ),
        declaration(TokenType::Let, "c", number(1)),
    ]);
    assert_eq!(tree, expected);
}

#[test]
fn a_function_declaration_counts_all_its_tokens() {
    assert_eq!(
        outcome(parse_function_declaration(&tokens_of("function f(a, b) { return a; } x"))),
        Ok((12, function("f", &["a", "b"], vec![return_of(name("a"))])))
    );
    assert_eq!(
        outcome(parse_function_declaration(&window("function f() {}"))),
        Ok((6, function("f", &[], vec![])))
    );
}

#[test]
fn a_function_declaration_fails_on_the_first_token_out_of_place() {
    assert_eq!(
        outcome(parse_function_declaration(&window("f() {}"))),
        Err(error(Production::FunctionDeclaration, TokenType::Identifier, "f"))
    );
    assert_eq!(
        outcome(parse_function_declaration(&window("function () {}"))),
        Err(error(Production::Identifier, TokenType::OpenParen, "("))
    );
    assert_eq!(
        outcome(parse_function_declaration(&window("function f {}"))),
        Err(error(Production::OpenParen, TokenType::OpenCurly, "{"))
    );
    assert_eq!(
        outcome(parse_function_declaration(&window("function f(a {}"))),
        Err(at_end(Production::CloseParen))
    );
    assert_eq!(
        outcome(parse_function_declaration(&window("function f(a b) {}"))),
        Err(error(Production::Comma, TokenType::Identifier, "b"))
    );
    assert_eq!(
        outcome(parse_function_declaration(&window("function f() return 1; }"))),
        Err(error(Production::OpenCurly, TokenType::Return, "return"))
    );
    assert_eq!(
        outcome(parse_function_declaration(&window("function f()"))),
        Err(at_end(Production::OpenCurly))
    );
    assert_eq!(
        outcome(parse_function_declaration(&window("function f() { return 1;"))),
        Err(at_end(Production::CloseCurly))
    );
    assert_eq!(
        outcome(parse_function_declaration(&window("function f() { return 1 }"))),
        Err(at_end(Production::Semicolon))
    );
    assert_eq!(
        outcome(parse_function_declaration(&window("function f() { 1; }"))),
        Err(error(Production::Statement, TokenType::NumericLiteral, "1"))
    );
}

#[test]
fn the_first_error_ends_the_parse() {
    assert_eq!(
        parse_source("let a = 1; let b 2; let c = ;"),
        Err(error(Production::Equals, TokenType::NumericLiteral, "2"))
    );
}

#[test]
fn parsing_survives_a_round_trip_through_text() {
    let source = "function area(w,h){return w*h+1;}let a=area(2,3);;const b=a;";
    let tokens = tokens_of(source);
    let words: Vec<&str> =
        tokens[..tokens.len() - 1].iter().map(|t| t.lexeme.as_str()).collect();
    let again = tokens_of(&words.join(" "));
    assert_eq!(parse(again), parse(tokens));
    assert!(parse_source(source).is_ok());
}

#[test]
fn the_end_of_input_token_is_spelled_out() {
    assert_eq!(end_of_input(), token(TokenType::EOF, "EOF"));
}

#[test]
fn a_statement_reads_the_tokens_it_counts_and_no_others() {
    let sources = [
        "let x = a * 2 + b; let y = 1;",
        "return f(1, g(2)); x",
        "function f(a, b) { return a; } f(1, 2);",
        "f(1, 2) + 3",
        "; ;",
    ];
    for source in sources {
        let tokens = tokens_of(source);
        let whole = outcome(parse_statement(&tokens)).unwrap();
        for k in whole.0..=tokens.len() {
            let prefix = tokens[..k].to_vec();
            assert_eq!(outcome(parse_statement(&prefix)), Ok(whole.clone()));
        }
    }
}
