use sql_parser::parser::Parser;
use sql_parser::statement::{BinaryOperator, Expression, Statement};

fn parse(input: &str) -> Statement {
    let mut parser = Parser::new(input);
    parser.parse().unwrap()
}

#[test]
fn test_render_simple_select() {
    let statement = parse("SELECT id, name FROM users;");
    assert_eq!(statement.render(), "SELECT id , name FROM users ;");
}

#[test]
fn test_render_expression_parenthesizes() {
    let e = Expression::BinaryOperation {
        left_operand: Box::new(Expression::Number(1)),
        operator: BinaryOperator::Plus,
        right_operand: Box::new(Expression::BinaryOperation {
            left_operand: Box::new(Expression::Number(2)),
            operator: BinaryOperator::Multiply,
            right_operand: Box::new(Expression::Number(3)),
        }),
    };
    assert_eq!(e.render(), "( 1 + ( 2 * 3 ) )");
}

#[test]
fn test_render_parse_round_trip_select() {
    let statement = parse("SELECT name FROM users WHERE age > 18 ORDER BY name ASC;");
    let rendered = statement.render();
    let reparsed = parse(&rendered);
    assert_eq!(statement, reparsed);
}

#[test]
fn test_render_parse_round_trip_select_star() {
    let statement = parse("SELECT * FROM users WHERE age >= 18 AND NOT banned ORDER BY age DESC, name;");
    let rendered = statement.render();
    let reparsed = parse(&rendered);
    assert_eq!(statement, reparsed);
}

#[test]
fn test_render_parse_round_trip_create_table() {
    let statement = parse(
        "CREATE TABLE users (id INT PRIMARY KEY, name VARCHAR(50) NOT NULL, age INT CHECK (age > 0));",
    );
    let rendered = statement.render();
    let reparsed = parse(&rendered);
    assert_eq!(statement, reparsed);
}

#[test]
fn test_render_parse_round_trip_string_literal_with_quote() {
    let statement = parse("SELECT name FROM users WHERE name = 'O\"Hara';");
    let rendered = statement.render();
    let reparsed = parse(&rendered);
    assert_eq!(statement, reparsed);
}

#[test]
fn test_render_parse_round_trip_twice_is_stable() {
    let statement = parse("SELECT a + b * c, -d FROM t WHERE x <= 10 OR y != 2 ORDER BY a;");
    let once = statement.render();
    let again = parse(&once).render();
    assert_eq!(once, again);
}
