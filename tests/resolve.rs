use compiler_in_rust::compiler::{compile, CompileError};
use compiler_in_rust::expr::Expression;
use compiler_in_rust::parser::{ParseError, Parser};
use compiler_in_rust::semantic_analysis::{resolve_statements, ResolveError};
use compiler_in_rust::stmt::Statement;
use compiler_in_rust::symbol_table::SymbolTable;
use compiler_in_rust::token::Operator;
use compiler_in_rust::tokenizer::{LexError, Tokenizer};
use compiler_in_rust::types::ValueType;

fn parse(source: &str) -> Vec<Statement> {
    let tokens = Tokenizer::new(source.chars().collect()).tokenize().unwrap();
    Parser::new(tokens).parse_statements().unwrap()
}

fn text(bytes: &[u8]) -> String {
    String::from_utf8(bytes.to_vec()).unwrap()
}

fn op(o: &Operator) -> &'static str {
    match o {
        Operator::Plus => "+",
        Operator::Minus => "-",
        Operator::Times => "*",
        Operator::Divide => "/",
        Operator::And => "&",
        Operator::Assign => "=",
    }
}

fn show(e: &Expression) -> String {
    match e {
        Expression::NumberLiteral { value, .. } => text(value),
        Expression::IdentifierLiteral { value, .. } => text(value),
        Expression::CharLiteral { value } => format!("'{}'", text(value)),
        Expression::Operation { lhs, operator, rhs, .. } => format!("({} {} {})", show(lhs), op(operator), show(rhs)),
        Expression::Array { content } => format!("[{}]", content.iter().map(show).collect::<Vec<_>>().join(", ")),
        Expression::Reference { reference } => format!("&{}", show(reference)),
        Expression::Deref { value } => format!("*{}", show(value)),
        Expression::Access { value, index } => format!("{}[{}]", show(value), show(index)),
        Expression::Cast { value, to } => format!("({} as {:?})", show(value), to),
    }
}

fn resolve_source(source: &str) -> (Vec<Statement>, Result<(), ResolveError>, SymbolTable) {
    let mut statements = parse(source);
    let mut table = SymbolTable::new();
    let r = resolve_statements(&mut statements, &mut table);
    (statements, r, table)
}

fn let_parts(st: &Statement) -> (&ValueType, &Expression) {
    match st {
        Statement::Let { type_, expression: Some(e), .. } => (type_, e),
        other => panic!("unexpected {:?}", other),
    }
}

#[test]
fn let_inserts_widening_cast() {
    let (statements, r, table) = resolve_source("let x: u64 = 5;");
    assert!(r.is_ok());
    let (type_, e) = let_parts(&statements[0]);
    assert_eq!(*type_, ValueType::U64);
    assert_eq!(show(e), "(5 as U64)");
    assert_eq!(e.get_type(), Some(ValueType::U64));
    match e {
        Expression::Cast { value, .. } => assert_eq!(value.get_type(), Some(ValueType::U8)),
        _ => panic!("no cast"),
    }
    assert_eq!(ValueType::U8.cast_to(&ValueType::U64), Some(compiler_in_rust::types::CastVariant::Implicit));
    assert_eq!(table.get(&b"x".to_vec()), Some(&ValueType::U64));
}

#[test]
fn assignment_to_array_element() {
    let mut statements = vec![
        Statement::Let {
            identifier: b"a".to_vec(),
            type_: ValueType::Array { content_type: Box::new(ValueType::Char), len: 4 },
            expression: None,
        },
    ];
    statements.extend(parse("a[0] = 'x';"));
    let mut table = SymbolTable::new();
    assert!(resolve_statements(&mut statements, &mut table).is_ok());
    match &statements[1] {
        Statement::Assign { assignee, expression } => {
            assert_eq!(show(assignee), "&a[(0 as U64)]");
            match assignee {
                Expression::Reference { reference } => match &**reference {
                    Expression::Access { value, .. } => {
                        assert!(matches!(&**value, Expression::IdentifierLiteral { .. }))
                    },
                    _ => panic!("not an access"),
                },
                _ => panic!("not a reference"),
            }
            assert_eq!(
                assignee.get_type(),
                Some(ValueType::Pointer { points_to: Box::new(ValueType::Char) })
            );
            assert_eq!(show(expression), "'x'");
            assert_eq!(expression.get_type(), Some(ValueType::Char));
        },
        other => panic!("unexpected {:?}", other),
    }
}

#[test]
fn let_with_sum_resolves_to_u64() {
    let (statements, r, _) = resolve_source("let a: u64 = 1 + 2;");
    assert!(r.is_ok());
    let (type_, e) = let_parts(&statements[0]);
    assert_eq!(*type_, ValueType::U64);
    assert_eq!(show(e), "((1 + 2) as U64)");
    assert_eq!(e.get_type(), Some(ValueType::U64));
}

fn print_expression(st: Statement) -> Expression {
    match st {
        Statement::Print { expression } => expression,
        other => panic!("unexpected {:?}", other),
    }
}

#[test]
fn resolving_again_inserts_no_cast() {
    let mut table = SymbolTable::new();
    table.register(b"a".to_vec(), ValueType::U16);
    table.register(b"p".to_vec(), ValueType::Pointer { points_to: Box::new(ValueType::U32) });
    let mut e = print_expression(parse("print(a * 2 + *&a + p + [1, 2][0])").remove(0));
    e.resolve(&table).unwrap();
    let first = show(&e);
    let first_type = e.get_type();
    e.resolve(&table).unwrap();
    assert_eq!(show(&e), first);
    assert_eq!(e.get_type(), first_type);
}

#[test]
fn operands_are_cast_by_explicit_entries() {
    let mut table = SymbolTable::new();
    table.register(b"a".to_vec(), ValueType::U16);
    table.register(b"c".to_vec(), ValueType::Char);
    let mut e = print_expression(parse("print(a * 2)").remove(0));
    e.resolve(&table).unwrap();
    assert_eq!(show(&e), "((a as U8) * 2)");
    assert_eq!(e.get_type(), Some(ValueType::U8));
    let mut e = print_expression(parse("print(2 * a)").remove(0));
    e.resolve(&table).unwrap();
    assert_eq!(show(&e), "(2 * (a as U8))");
    let mut e = print_expression(parse("print(c + 1)").remove(0));
    e.resolve(&table).unwrap();
    assert_eq!(show(&e), "((c as U8) + 1)");
    assert_eq!(e.get_type(), Some(ValueType::U8));
}

#[test]
fn pointer_operands_are_dereferenced() {
    let mut table = SymbolTable::new();
    table.register(b"p".to_vec(), ValueType::Pointer { points_to: Box::new(ValueType::U8) });
    let mut e = print_expression(parse("print(p + 1)").remove(0));
    e.resolve(&table).unwrap();
    assert_eq!(show(&e), "(*p + 1)");
    assert_eq!(e.get_type(), Some(ValueType::U8));
}

#[test]
fn index_through_pointer() {
    let mut table = SymbolTable::new();
    let array = ValueType::Array { content_type: Box::new(ValueType::U32), len: 3 };
    table.register(b"q".to_vec(), ValueType::Pointer { points_to: Box::new(array) });
    let mut e = print_expression(parse("print(q[1])").remove(0));
    e.resolve(&table).unwrap();
    assert_eq!(show(&e), "q[(1 as U64)]");
    assert_eq!(e.get_type(), Some(ValueType::U32));
}

#[test]
fn array_literal_type() {
    let mut e = print_expression(parse("print([1, 2, 3])").remove(0));
    e.resolve(&SymbolTable::new()).unwrap();
    assert_eq!(e.get_type(), Some(ValueType::Array { content_type: Box::new(ValueType::U8), len: 3 }));
    let mut e = print_expression(parse("print(\"hi\")").remove(0));
    e.resolve(&SymbolTable::new()).unwrap();
    assert_eq!(e.get_type(), Some(ValueType::Array { content_type: Box::new(ValueType::Char), len: 2 }));
}

#[test]
fn unresolved_identifier() {
    let (_, r, _) = resolve_source("print(x)");
    assert!(matches!(r, Err(ResolveError::UnresolvedIdentifier)));
    let (_, r, _) = resolve_source("let x: u8 = x;");
    assert!(matches!(r, Err(ResolveError::UnresolvedIdentifier)));
}

#[test]
fn declaration_without_initializer_reserves_the_name() {
    let (statements, r, table) = resolve_source("let x: u8 = ; x = 7;");
    assert!(r.is_ok());
    assert_eq!(table.get(&b"x".to_vec()), Some(&ValueType::U8));
    match &statements[1] {
        Statement::Assign { assignee, .. } => assert_eq!(show(assignee), "&x"),
        other => panic!("unexpected {:?}", other),
    }
}

#[test]
fn mismatches() {
    let (_, r, _) = resolve_source("let a: [u8, 2] = [1, 2]; let b: u8 = a;");
    assert!(matches!(r, Err(ResolveError::TypeMismatch { .. })));
    let (_, r, _) = resolve_source("print([1, 'c'])");
    match r {
        Err(ResolveError::TypeMismatch { expected, found }) => {
            assert_eq!(expected, ValueType::U8);
            assert_eq!(found, ValueType::Char);
        },
        other => panic!("unexpected {:?}", other),
    }
    let (_, r, _) = resolve_source("let a: [u8, 2] = [1, 2]; print(a + 1)");
    assert!(matches!(r, Err(ResolveError::TypeMismatch { .. })));
}

#[test]
fn char_index_is_cast() {
    let (statements, r, _) = resolve_source("let a: [u8, 2] = [1, 2]; print(a['c'])");
    assert!(r.is_ok());
    match &statements[1] {
        Statement::Print { expression } => assert_eq!(show(expression), "a[('c' as U64)]"),
        other => panic!("unexpected {:?}", other),
    }
}

#[test]
fn invalid_operands() {
    for source in ["print(*1)", "print(&1)", "print(1[0])", "1 = 2;", "print(\"\")", "let a: u8 = 1; print(*a)"] {
        let (_, r, _) = resolve_source(source);
        assert!(matches!(r, Err(ResolveError::InvalidOperand)), "{}", source);
    }
}

#[test]
fn invalid_cast() {
    let mut e = Expression::Cast {
        value: Box::new(Expression::CharLiteral { value: b"x".to_vec() }),
        to: ValueType::Pointer { points_to: Box::new(ValueType::U8) },
    };
    match e.resolve(&SymbolTable::new()) {
        Err(ResolveError::InvalidCast { from, to }) => {
            assert_eq!(from, ValueType::Char);
            assert_eq!(to, ValueType::Pointer { points_to: Box::new(ValueType::U8) });
        },
        other => panic!("unexpected {:?}", other),
    }
    let mut ok = Expression::Cast {
        value: Box::new(Expression::CharLiteral { value: b"x".to_vec() }),
        to: ValueType::U16,
    };
    assert!(ok.resolve(&SymbolTable::new()).is_ok());
    assert_eq!(ok.get_type(), Some(ValueType::U16));
}

#[test]
fn failed_let_registers_nothing() {
    let mut statements = parse("let a: [u8, 2] = 1;");
    let mut table = SymbolTable::new();
    let r = statements[0].resolve(&mut table);
    assert!(matches!(r, Err(ResolveError::TypeMismatch { .. })));
    assert_eq!(table.get(&b"a".to_vec()), None);
}

#[test]
fn compile_pipeline() {
    let statements = compile("let a: u64 = 1 + 2; print(a)".chars().collect()).unwrap();
    assert_eq!(statements.len(), 2);
    match &statements[1] {
        Statement::Print { expression } => assert_eq!(expression.get_type(), Some(ValueType::U64)),
        other => panic!("unexpected {:?}", other),
    }
    assert!(matches!(
        compile("print(1 % 2)".chars().collect()),
        Err(CompileError::Lex(LexError::UnknownCharacter { position: 8, character: '%' }))
    ));
    assert!(matches!(
        compile("let a: u8 = 1".chars().collect()),
        Err(CompileError::Parse(ParseError::UnexpectedEnd { .. }))
    ));
    assert!(matches!(
        compile("print(x)".chars().collect()),
        Err(CompileError::Resolve(ResolveError::UnresolvedIdentifier))
    ));
}
