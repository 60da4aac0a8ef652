use gamemaker_plus::compiler::ast::Node;
use gamemaker_plus::compiler::parser::parse;
use gamemaker_plus::compiler::tokenizer::{tokenize, TokenType};
use gamemaker_plus::enum_utils::{enum_weak_equals, Variant};

fn tree_of(source: &str) -> Node {
    parse(tokenize(source.to_string()).unwrap()).unwrap()
}

fn number(value: i32) -> Node {
    Node::NumericLiteral(value)
}

fn operator(symbol: &str) -> Node {
    Node::BinaryOperator(symbol.to_string())
}

#[test]
fn displays_a_declaration() {
    let lines = tree_of("let x = 1 + 2;").display_program(0);
    let expected = vec![
        "Program {0",
        "  Variable Declaration {1",
        "    DeclarationType: Let",
        "    Name: x",
        "    Expression {2",
        "      Binary Expression {3",
        "        NumericLiteral: 1",
        "        Binary Operator: +",
        "        NumericLiteral: 2",
        "      }3",
        "    }2",
        "  }1",
        "}0",
    ];
    assert_eq!(lines, expected);
}

#[test]
fn displays_a_function_and_a_call() {
    let lines = tree_of("function add(a, b) { return a + b; } add(1, x);").display_program(0);
    let expected = vec![
        "Program {0",
        "  FunctionDeclaration {1",
        "    name: add",
        "    Parameters: [2",
        "      FunctionParameter: a",
        "      FunctionParameter: b",
        "    ]2",
        "    Program {2",
        "      Return Statement {3",
        "        Binary Expression {4",
        "          Identifier: a",
        "          Binary Operator: +",
        "          Identifier: b",
        "        }4",
        "      }3",
        "    }2",
        "  }1",
        "  FunctionCall {1",
        "    Identifier: add",
        "    Arguments {2",
        "      NumericLiteral: 1",
        "      Identifier: x",
        "    }2",
        "  }1",
        "}0",
    ];
    assert_eq!(lines, expected);
}

#[test]
fn displays_from_any_level() {
    let lines = Node::ReturnStatement(Box::new(number(-40))).display_program(11);
    let expected = vec![
        "                      Return Statement {11",
        "                        NumericLiteral: -40",
        "                      }11",
    ];
    assert_eq!(lines, expected);
    assert_eq!(Node::Program(vec![]).display_program(3), vec!["      Program {3", "      }3"]);
    assert_eq!(
        Node::DeclarationType(TokenType::Const).display_program(1),
        vec!["  DeclarationType: Const"]
    );
}

#[test]
fn trees_with_a_sentinel_cannot_be_displayed() {
    assert!(!Node::Ignore.can_display(0));
    assert!(!Node::Failure.can_display(0));
    let hidden = Node::Program(vec![Box::new(Node::ReturnStatement(Box::new(Node::Ignore)))]);
    assert!(!hidden.can_display(0));
    assert!(!hidden.is_clean());
    let hidden = Node::FunctionDeclaration(
        "f".to_string(),
        vec![Box::new(Node::Failure)],
        Box::new(Node::Program(vec![])),
    );
    assert!(!hidden.is_clean());
    let hidden = Node::Arguments(vec![Box::new(number(1)), Box::new(Node::Ignore)]);
    assert!(!hidden.is_clean());
}

#[test]
fn clean_trees_can_be_displayed_where_the_level_numbers_fit() {
    let tree = tree_of("let x = f(1, 2);");
    assert!(tree.is_clean());
    assert!(tree.can_display(0));
    assert!(tree.can_display(1000));
    assert!(!tree.can_display(usize::MAX));
    assert!(!tree.can_display(usize::MAX - 9));
    assert!(tree.can_display(usize::MAX - 10));
    assert!(number(1).can_display(usize::MAX - 2));
    assert!(!number(1).can_display(usize::MAX - 1));
}

#[test]
fn a_clone_is_equal_to_its_source() {
    let tree = tree_of("function f(a) { let b = a * 2; return g(b, 1); } const c = f(3);");
    assert_eq!(tree.clone(), tree);
    assert_eq!(*tree.to_box(), tree);
    assert_eq!(Node::Ignore.clone(), Node::Ignore);
    assert_eq!(Node::Failure.clone(), Node::Failure);
}

#[test]
fn weak_equality_looks_at_the_variant_only() {
    assert!(enum_weak_equals(&operator("+"), &operator("*")));
    assert!(enum_weak_equals(&number(1), &number(2)));
    assert!(enum_weak_equals(&Node::Program(vec![]), &tree_of("let a = 1;")));
    assert!(!enum_weak_equals(&operator("+"), &Node::Identifier("+".to_string())));
    assert!(!enum_weak_equals(&Node::Ignore, &Node::Failure));
    assert!(!enum_weak_equals(
        &Node::FunctionParameter("a".to_string()),
        &Node::Identifier("a".to_string())
    ));
    assert_ne!(operator("+"), operator("*"));
}

#[test]
fn every_variant_has_its_own_index() {
    let nodes = vec![
        Node::Program(vec![]),
        Node::Failure,
        Node::Ignore,
        Node::BinaryExpression(Box::new(number(1)), Box::new(operator("+")), Box::new(number(2))),
        number(0),
        Node::Identifier("a".to_string()),
        operator("-"),
        Node::VariableDeclaration(
            Box::new(Node::DeclarationType(TokenType::Let)),
            "a".to_string(),
            Box::new(number(1)),
        ),
        Node::DeclarationType(TokenType::Let),
        Node::FunctionCall(
            Box::new(Node::Identifier("f".to_string())),
            Box::new(Node::Arguments(vec![])),
        ),
        Node::FunctionParameter("p".to_string()),
        Node::Arguments(vec![]),
        Node::FunctionDeclaration("f".to_string(), vec![], Box::new(Node::Program(vec![]))),
        Node::ReturnStatement(Box::new(number(1))),
    ];
    for (i, node) in nodes.iter().enumerate() {
        assert_eq!(node.variant() as usize, i);
    }
}
