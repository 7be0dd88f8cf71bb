use sql_parser::parser::{ParseError, Parser};
use sql_parser::statement::{
    BinaryOperator, Constraint, DBType, Expression, Statement, TableColumn, UnaryOperator,
};
use sql_parser::tokenizer::TokenizerError;

#[test]
fn test_pratt_parser_precedence() {
    // the statement grammar needs a SELECT around the expression; the
    // tree for "1 + 2 * 3" is what matters here
    let input = "SELECT 1 + 2 * 3 FROM t;";
    let mut parser = Parser::new(input);
    let statement = parser.parse().unwrap();
    assert_eq!(
        statement,
        Statement::Select {
            columns: vec![Expression::BinaryOperation {
                left_operand: Box::new(Expression::Number(1)),
                operator: BinaryOperator::Plus,
                right_operand: Box::new(Expression::BinaryOperation {
                    left_operand: Box::new(Expression::Number(2)),
                    operator: BinaryOperator::Multiply,
                    right_operand: Box::new(Expression::Number(3)),
                }),
            }],
            from: "t".to_string(),
            where_clause: None,
            orderby: vec![],
        }
    );
}

#[test]
fn test_pratt_parser_parentheses() {
    let input = "SELECT (1 + 2) * 3 FROM t;";
    let mut parser = Parser::new(input);
    let statement = parser.parse().unwrap();
    assert_eq!(
        statement,
        Statement::Select {
            columns: vec![Expression::BinaryOperation {
                left_operand: Box::new(Expression::BinaryOperation {
                    left_operand: Box::new(Expression::Number(1)),
                    operator: BinaryOperator::Plus,
                    right_operand: Box::new(Expression::Number(2)),
                }),
                operator: BinaryOperator::Multiply,
                right_operand: Box::new(Expression::Number(3)),
            }],
            from: "t".to_string(),
            where_clause: None,
            orderby: vec![],
        }
    );
}

#[test]
fn test_pratt_parser_unary_operation() {
    let input = "SELECT -5 + 6 FROM t;";
    let mut parser = Parser::new(input);
    let statement = parser.parse().unwrap();
    assert_eq!(
        statement,
        Statement::Select {
            columns: vec![Expression::BinaryOperation {
                left_operand: Box::new(Expression::UnaryOperation {
                    operand: Box::new(Expression::Number(5)),
                    operator: UnaryOperator::Minus,
                }),
                operator: BinaryOperator::Plus,
                right_operand: Box::new(Expression::Number(6)),
            }],
            from: "t".to_string(),
            where_clause: None,
            orderby: vec![],
        }
    );
}

#[test]
fn test_pratt_parser_error_invalid_token() {
    let input = "1 + #;";
    let mut parser = Parser::new(input);
    let result = parser.parse();
    assert!(matches!(result, Err(_)));
}

#[test]
fn test_sql_parser_select_simple() {
    let input = "SELECT id, name FROM users;";
    let mut parser = Parser::new(input);
    let statement = parser.parse().unwrap();
    assert_eq!(
        statement,
        Statement::Select {
            columns: vec![
                Expression::Identifier("id".to_string()),
                Expression::Identifier("name".to_string()),
            ],
            from: "users".to_string(),
            where_clause: None,
            orderby: vec![],
        }
    );
}

#[test]
fn test_sql_parser_select_with_where_order_by() {
    let input = "SELECT name FROM users WHERE age > 18 ORDER BY name ASC;";
    let mut parser = Parser::new(input);
    let statement = parser.parse().unwrap();
    assert_eq!(
        statement,
        Statement::Select {
            columns: vec![Expression::Identifier("name".to_string())],
            from: "users".to_string(),
            where_clause: Some(Expression::BinaryOperation {
                left_operand: Box::new(Expression::Identifier("age".to_string())),
                operator: BinaryOperator::GreaterThan,
                right_operand: Box::new(Expression::Number(18)),
            }),
            orderby: vec![Expression::UnaryOperation {
                operand: Box::new(Expression::Identifier("name".to_string())),
                operator: UnaryOperator::Asc,
            }],
        }
    );
}

#[test]
fn test_sql_parser_create_table() {
    let input =
        "CREATE TABLE users (id INT PRIMARY KEY, name VARCHAR(50) NOT NULL, age INT CHECK (age > 0));";
    let mut parser = Parser::new(input);
    let statement = parser.parse().unwrap();
    assert_eq!(
        statement,
        Statement::CreateTable {
            table_name: "users".to_string(),
            column_list: vec![
                TableColumn {
                    column_name: "id".to_string(),
                    column_type: DBType::Int,
                    constraints: vec![Constraint::PrimaryKey],
                },
                TableColumn {
                    column_name: "name".to_string(),
                    column_type: DBType::Varchar(50),
                    constraints: vec![Constraint::NotNull],
                },
                TableColumn {
                    column_name: "age".to_string(),
                    column_type: DBType::Int,
                    constraints: vec![Constraint::Check(Expression::BinaryOperation {
                        left_operand: Box::new(Expression::Identifier("age".to_string())),
                        operator: BinaryOperator::GreaterThan,
                        right_operand: Box::new(Expression::Number(0)),
                    })],
                },
            ],
        }
    );
}

#[test]
fn test_sql_parser_select_error_no_from() {
    let input = "SELECT name;";
    let mut parser = Parser::new(input);
    let result = parser.parse();
    assert!(matches!(result, Err(_)));
}

#[test]
fn test_sql_parser_create_table_error_invalid_type() {
    let input = "CREATE TABLE users (id INVALID);";
    let mut parser = Parser::new(input);
    let result = parser.parse();
    assert!(matches!(result, Err(_)));
}

#[test]
fn test_sql_parser_select_star() {
    let input = "SELECT * FROM users WHERE age > 18;";
    let mut parser = Parser::new(input);
    let statement = parser.parse().unwrap();
    assert_eq!(
        statement,
        Statement::SelectAll {
            from: "users".to_string(),
            where_clause: Some(Expression::BinaryOperation {
                left_operand: Box::new(Expression::Identifier("age".to_string())),
                operator: BinaryOperator::GreaterThan,
                right_operand: Box::new(Expression::Number(18)),
            }),
            orderby: vec![],
        }
    );
}

#[test]
fn test_pratt_parser_left_associativity() {
    let input = "SELECT 1 - 2 - 3 FROM t;";
    let mut parser = Parser::new(input);
    let statement = parser.parse().unwrap();
    assert_eq!(
        statement,
        Statement::Select {
            columns: vec![Expression::BinaryOperation {
                left_operand: Box::new(Expression::BinaryOperation {
                    left_operand: Box::new(Expression::Number(1)),
                    operator: BinaryOperator::Minus,
                    right_operand: Box::new(Expression::Number(2)),
                }),
                operator: BinaryOperator::Minus,
                right_operand: Box::new(Expression::Number(3)),
            }],
            from: "t".to_string(),
            where_clause: None,
            orderby: vec![],
        }
    );
}

#[test]
fn test_sql_parser_varchar_length_zero_rejected() {
    let input = "CREATE TABLE t (a VARCHAR(0));";
    let mut parser = Parser::new(input);
    let result = parser.parse();
    assert!(matches!(result, Err(ParseError::InvalidVarcharLength)));
}

#[test]
fn test_sql_parser_varchar_length_too_large_rejected() {
    let input = "CREATE TABLE t (a VARCHAR(65536));";
    let mut parser = Parser::new(input);
    let result = parser.parse();
    assert!(matches!(result, Err(ParseError::InvalidVarcharLength)));
}

#[test]
fn test_sql_parser_varchar_length_bounds_accepted() {
    let mut parser = Parser::new("CREATE TABLE t (a VARCHAR(1));");
    let statement = parser.parse().unwrap();
    assert_eq!(
        statement,
        Statement::CreateTable {
            table_name: "t".to_string(),
            column_list: vec![TableColumn {
                column_name: "a".to_string(),
                column_type: DBType::Varchar(1),
                constraints: vec![],
            }],
        }
    );
    let mut parser = Parser::new("CREATE TABLE t (a VARCHAR(65535));");
    let statement = parser.parse().unwrap();
    assert_eq!(
        statement,
        Statement::CreateTable {
            table_name: "t".to_string(),
            column_list: vec![TableColumn {
                column_name: "a".to_string(),
                column_type: DBType::Varchar(65535),
                constraints: vec![],
            }],
        }
    );
}

#[test]
fn test_sql_parser_lex_error_surfaces() {
    let input = "SELECT @ FROM t;";
    let mut parser = Parser::new(input);
    let result = parser.parse();
    assert!(matches!(
        result,
        Err(ParseError::Lex(TokenizerError::UnexpectedChar('@')))
    ));
}

#[test]
fn test_sql_parser_error_not_a_statement() {
    let input = "42;";
    let mut parser = Parser::new(input);
    let result = parser.parse();
    assert!(matches!(result, Err(ParseError::UnexpectedToken(_))));
}

#[test]
fn test_sql_parser_boolean_and_string_literals() {
    let input = "SELECT TRUE, FALSE, 'x' FROM t;";
    let mut parser = Parser::new(input);
    let statement = parser.parse().unwrap();
    assert_eq!(
        statement,
        Statement::Select {
            columns: vec![
                Expression::Bool(true),
                Expression::Bool(false),
                Expression::String("x".to_string()),
            ],
            from: "t".to_string(),
            where_clause: None,
            orderby: vec![],
        }
    );
}

#[test]
fn test_sql_parser_logic_precedence() {
    // OR binds weaker than AND, which binds weaker than comparisons
    let input = "SELECT * FROM t WHERE a > 1 AND b < 2 OR c = 3;";
    let mut parser = Parser::new(input);
    let statement = parser.parse().unwrap();
    let gt = Expression::BinaryOperation {
        left_operand: Box::new(Expression::Identifier("a".to_string())),
        operator: BinaryOperator::GreaterThan,
        right_operand: Box::new(Expression::Number(1)),
    };
    let lt = Expression::BinaryOperation {
        left_operand: Box::new(Expression::Identifier("b".to_string())),
        operator: BinaryOperator::LessThan,
        right_operand: Box::new(Expression::Number(2)),
    };
    let eq = Expression::BinaryOperation {
        left_operand: Box::new(Expression::Identifier("c".to_string())),
        operator: BinaryOperator::Equal,
        right_operand: Box::new(Expression::Number(3)),
    };
    assert_eq!(
        statement,
        Statement::SelectAll {
            from: "t".to_string(),
            where_clause: Some(Expression::BinaryOperation {
                left_operand: Box::new(Expression::BinaryOperation {
                    left_operand: Box::new(gt),
                    operator: BinaryOperator::And,
                    right_operand: Box::new(lt),
                }),
                operator: BinaryOperator::Or,
                right_operand: Box::new(eq),
            }),
            orderby: vec![],
        }
    );
}

#[test]
fn test_sql_parser_invalid_type_exact_error() {
    let input = "CREATE TABLE users (id INVALID);";
    let mut parser = Parser::new(input);
    let result = parser.parse();
    assert!(matches!(result, Err(ParseError::InvalidColumnType)));
}

#[test]
fn test_parse_error_messages() {
    let mut parser = Parser::new("CREATE TABLE t (a VARCHAR(0));");
    assert_eq!(parser.parse().unwrap_err().describe(), "Invalid VARCHAR length");
    let mut parser = Parser::new("SELECT name FROM 42;");
    assert_eq!(parser.parse().unwrap_err().describe(), "Unexpected token: 42");
    let mut parser = Parser::new("SELECT name FROM t WHERE !x;");
    assert_eq!(parser.parse().unwrap_err().describe(), "Unexpected character: !");
}
