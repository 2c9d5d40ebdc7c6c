use compiler_in_rust::symbol_table::{Scope, SymbolTable};
use compiler_in_rust::types::ValueType;

#[test]
fn popped_scope_forgets_its_bindings() {
    let mut table = SymbolTable::new();
    table.register(b"outer".to_vec(), ValueType::U8);
    table.initiate_scope();
    table.register(b"inner".to_vec(), ValueType::Char);
    assert_eq!(table.get(&b"inner".to_vec()), Some(&ValueType::Char));
    assert_eq!(table.get(&b"outer".to_vec()), Some(&ValueType::U8));
    table.drop_scope();
    assert_eq!(table.get(&b"inner".to_vec()), None);
    assert_eq!(table.get(&b"outer".to_vec()), Some(&ValueType::U8));
}

#[test]
fn inner_scope_shadows_outer() {
    let mut table = SymbolTable::new();
    table.register(b"x".to_vec(), ValueType::U8);
    table.initiate_scope();
    table.register(b"x".to_vec(), ValueType::U64);
    assert_eq!(table.get(&b"x".to_vec()), Some(&ValueType::U64));
    table.drop_scope();
    assert_eq!(table.get(&b"x".to_vec()), Some(&ValueType::U8));
}

#[test]
fn later_registration_overwrites() {
    let mut table = SymbolTable::new();
    table.register(b"x".to_vec(), ValueType::U8);
    table.register(b"x".to_vec(), ValueType::U32);
    assert_eq!(table.get(&b"x".to_vec()), Some(&ValueType::U32));
}

#[test]
fn global_scope_is_never_dropped() {
    let mut table = SymbolTable::new();
    table.register(b"g".to_vec(), ValueType::U16);
    table.drop_scope();
    assert_eq!(table.get(&b"g".to_vec()), Some(&ValueType::U16));
    table.register(b"h".to_vec(), ValueType::U8);
    assert_eq!(table.get(&b"h".to_vec()), Some(&ValueType::U8));
}

#[test]
fn scope_bindings() {
    let mut scope = Scope::new();
    assert_eq!(scope.get(&b"a".to_vec()), None);
    scope.register(b"a".to_vec(), ValueType::Char);
    scope.register(b"b".to_vec(), ValueType::U8);
    scope.register(b"a".to_vec(), ValueType::U16);
    assert_eq!(scope.get(&b"a".to_vec()), Some(&ValueType::U16));
    assert_eq!(scope.get(&b"b".to_vec()), Some(&ValueType::U8));
    assert_eq!(scope.get(&b"c".to_vec()), None);
}
