use compiler_in_rust::expr::Expression;
use compiler_in_rust::parser::{Expected, ParseError, Parser, Precedence};
use compiler_in_rust::stmt::Statement;
use compiler_in_rust::token::{Keyword, LiteralType, Operator, Token};
use compiler_in_rust::tokenizer::Tokenizer;
use compiler_in_rust::types::ValueType;

fn parse(source: &str) -> Result<Vec<Statement>, ParseError> {
    let tokens = Tokenizer::new(source.chars().collect()).tokenize().unwrap();
    Parser::new(tokens).parse_statements()
}

fn text(bytes: &[u8]) -> String {
    String::from_utf8(bytes.to_vec()).unwrap()
}

fn op(o: &Operator) -> &'static str {
    match o {
        Operator::Plus => "+",
        Operator::Minus => "-",
        Operator::Times => "*",
        Operator::Divide => "/",
        Operator::And => "&",
        Operator::Assign => "=",
    }
}

fn show(e: &Expression) -> String {
    match e {
        Expression::NumberLiteral { value, internal_type } => format!("{}:{:?}", text(value), internal_type),
        Expression::IdentifierLiteral { value, .. } => text(value),
        Expression::CharLiteral { value } => format!("'{}'", text(value)),
        Expression::Operation { lhs, operator, rhs, .. } => format!("({} {} {})", show(lhs), op(operator), show(rhs)),
        Expression::Array { content } => format!("[{}]", content.iter().map(show).collect::<Vec<_>>().join(", ")),
        Expression::Reference { reference } => format!("&{}", show(reference)),
        Expression::Deref { value } => format!("*{}", show(value)),
        Expression::Access { value, index } => format!("{}[{}]", show(value), show(index)),
        Expression::Cast { value, to } => format!("({} as {:?})", show(value), to),
    }
}

fn print_argument(source: &str) -> String {
    let statements = parse(source).unwrap();
    assert_eq!(statements.len(), 1);
    match &statements[0] {
        Statement::Print { expression } => show(expression),
        other => panic!("not a print statement: {:?}", other),
    }
}

#[test]
fn product_binds_tighter_than_sum() {
    assert_eq!(print_argument("print(1+2*3)"), "(1:U8 + (2:U8 * 3:U8))");
}

#[test]
fn dereference_binds_tighter_than_sum() {
    assert_eq!(print_argument("print(*a+1)"), "(*a + 1:U8)");
}

#[test]
fn index_binds_tighter_than_sum() {
    assert_eq!(print_argument("print(a[0]+1)"), "(a[0:U8] + 1:U8)");
}

#[test]
fn operators_fold_to_the_left() {
    assert_eq!(print_argument("print(8-4-2)"), "((8:U8 - 4:U8) - 2:U8)");
    assert_eq!(print_argument("print(8/4*2)"), "((8:U8 / 4:U8) * 2:U8)");
}

#[test]
fn parentheses_group() {
    assert_eq!(print_argument("print((1+2)*3)"), "((1:U8 + 2:U8) * 3:U8)");
}

#[test]
fn prefix_operators() {
    assert_eq!(print_argument("print(&a[1])"), "&a[1:U8]");
    assert_eq!(print_argument("print(**p)"), "**p");
}

#[test]
fn array_literal_and_string() {
    assert_eq!(print_argument("print([1, 2, 300])"), "[1:U8, 2:U8, 300:U16]");
    assert_eq!(print_argument("print(\"ab\\nc\")"), "['a', 'b', '\\n', 'c']");
    assert_eq!(print_argument("print(\"\")"), "[]");
}

#[test]
fn number_literal_widths() {
    assert_eq!(print_argument("print(255)"), "255:U8");
    assert_eq!(print_argument("print(256)"), "256:U16");
    assert_eq!(print_argument("print(65536)"), "65536:U32");
    assert_eq!(print_argument("print(4294967296)"), "4294967296:U64");
    assert_eq!(print_argument("print(18446744073709551615)"), "18446744073709551615:U64");
}

#[test]
fn number_literal_overflow() {
    assert_eq!(parse("print(18446744073709551616)").err(), Some(ParseError::Overflow { position: 2 }));
}

#[test]
fn let_with_binary_initializer() {
    let statements = parse("let a: u64 = 1 + 2;").unwrap();
    assert_eq!(statements.len(), 1);
    match &statements[0] {
        Statement::Let { identifier, type_, expression: Some(e) } => {
            assert_eq!(text(identifier), "a");
            assert_eq!(*type_, ValueType::U64);
            assert_eq!(show(e), "(1:U8 + 2:U8)");
        },
        other => panic!("unexpected {:?}", other),
    }
}

#[test]
fn let_without_initializer() {
    let statements = parse("let a: [char, 4] = ; exit(0)").unwrap();
    assert_eq!(statements.len(), 2);
    match &statements[0] {
        Statement::Let { identifier, type_, expression: None } => {
            assert_eq!(text(identifier), "a");
            assert_eq!(*type_, ValueType::Array { content_type: Box::new(ValueType::Char), len: 4 });
        },
        other => panic!("unexpected {:?}", other),
    }
    assert!(matches!(&statements[1], Statement::Exit { .. }));
}

#[test]
fn pointer_types() {
    let statements = parse("let p: &&u8 = &q;").unwrap();
    match &statements[0] {
        Statement::Let { type_, .. } => assert_eq!(
            *type_,
            ValueType::Pointer { points_to: Box::new(ValueType::Pointer { points_to: Box::new(ValueType::U8) }) }
        ),
        other => panic!("unexpected {:?}", other),
    }
}

#[test]
fn assignment() {
    let statements = parse("a[1] = 'x';").unwrap();
    match &statements[0] {
        Statement::Assign { assignee, expression } => {
            assert_eq!(show(assignee), "a[1:U8]");
            assert_eq!(show(expression), "'x'");
        },
        other => panic!("unexpected {:?}", other),
    }
}

#[test]
fn missing_tokens_are_reported() {
    assert_eq!(parse("let a u8 = 1;").err(), Some(ParseError::UnexpectedToken { position: 2, expected: Expected::Colon }));
    assert_eq!(parse("let a: u8 = 1").err(), Some(ParseError::UnexpectedEnd { expected: Expected::Semicolon }));
    assert_eq!(parse("let : u8 = 1;").err(), Some(ParseError::UnexpectedToken { position: 1, expected: Expected::Identifier }));
    assert_eq!(parse("let a: = 1;").err(), Some(ParseError::UnexpectedToken { position: 3, expected: Expected::Type }));
    assert_eq!(parse("let a: u8 1;").err(), Some(ParseError::UnexpectedToken { position: 4, expected: Expected::Assign }));
    assert_eq!(parse("print 1").err(), Some(ParseError::UnexpectedToken { position: 1, expected: Expected::OpenParent }));
    assert_eq!(parse("print(1").err(), Some(ParseError::UnexpectedEnd { expected: Expected::ClosedParent }));
    assert_eq!(parse("print([1, 2)").err(), Some(ParseError::UnexpectedToken { position: 6, expected: Expected::ClosedBracket }));
    assert_eq!(parse("print(;)").err(), Some(ParseError::UnexpectedToken { position: 2, expected: Expected::Expression }));
    assert_eq!(parse("a;").err(), Some(ParseError::UnexpectedToken { position: 1, expected: Expected::Assign }));
}

#[test]
fn invalid_operators_are_reported() {
    assert_eq!(parse("print(a & b)").err(), Some(ParseError::UnexpectedToken { position: 3, expected: Expected::InfixOperator }));
    assert_eq!(parse("print(-a)").err(), Some(ParseError::UnexpectedToken { position: 2, expected: Expected::PrefixOperator }));
}

#[test]
fn array_type_length_errors() {
    assert_eq!(parse("let a: [u8, x] = ;").err(), Some(ParseError::UnexpectedToken { position: 6, expected: Expected::Number }));
    assert_eq!(parse("let a: [u8 4] = ;").err(), Some(ParseError::UnexpectedToken { position: 5, expected: Expected::Comma }));
}

#[test]
fn hand_built_tokens() {
    let tokens = vec![
        Token::Keyword { keyword: Keyword::Exit },
        Token::OpenParent,
        Token::Literal { type_: LiteralType::Number, value: b"1x".to_vec() },
        Token::ClosedParent,
    ];
    assert_eq!(Parser::new(tokens).parse_statements().err(), Some(ParseError::InvalidNumber { position: 2 }));
}

#[test]
fn precedences() {
    assert_eq!(Operator::Plus.get_precedence(), Some(Precedence::Sum));
    assert_eq!(Operator::Divide.get_precedence(), Some(Precedence::Product));
    assert_eq!(Operator::And.get_precedence(), Some(Precedence::Prefix));
    assert_eq!(Operator::Assign.get_precedence(), None);
    assert_eq!(Token::OpenBracket.get_precedence(), Some(Precedence::Postfix));
    assert_eq!(Token::Semicolon.get_precedence(), None);
}
