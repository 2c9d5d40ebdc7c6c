use compiler_in_rust::token::Operator;
use compiler_in_rust::types::{CastVariant, ValueType};

fn pointer(t: ValueType) -> ValueType {
    ValueType::Pointer { points_to: Box::new(t) }
}

fn sorted_casts(t: &ValueType) -> Vec<String> {
    let mut v: Vec<String> = t.get_casts().iter().map(|(to, variant)| format!("{:?}:{:?}", to, variant)).collect();
    v.sort();
    v
}

#[test]
fn widening_is_implicit() {
    assert_eq!(
        sorted_casts(&ValueType::U8),
        vec!["Char:Explicit", "U16:Implicit", "U32:Implicit", "U64:Implicit", "U8:Explicit"]
    );
    assert_eq!(
        sorted_casts(&ValueType::U32),
        vec!["Char:Explicit", "U16:Explicit", "U32:Explicit", "U64:Implicit", "U8:Explicit"]
    );
    assert_eq!(
        sorted_casts(&ValueType::U64),
        vec!["Char:Explicit", "U16:Explicit", "U32:Explicit", "U64:Explicit", "U8:Explicit"]
    );
}

#[test]
fn char_casts_are_explicit() {
    assert_eq!(
        sorted_casts(&ValueType::Char),
        vec!["Char:Explicit", "U16:Explicit", "U32:Explicit", "U64:Explicit", "U8:Explicit"]
    );
}

#[test]
fn pointers_and_arrays_cast_only_to_themselves() {
    let p = pointer(ValueType::U8);
    let casts = p.get_casts();
    assert_eq!(casts.len(), 1);
    assert_eq!(casts[0].0, p);
    assert_eq!(casts[0].1, CastVariant::Explicit);
    let a = ValueType::Array { content_type: Box::new(ValueType::Char), len: 3 };
    assert_eq!(a.get_casts().len(), 1);
    assert_eq!(a.cast_to(&a), Some(CastVariant::Explicit));
    assert_eq!(a.cast_to(&ValueType::Array { content_type: Box::new(ValueType::Char), len: 4 }), None);
    assert_eq!(p.cast_to(&ValueType::U64), None);
}

#[test]
fn operation_tables() {
    let r = ValueType::U16.get_operation_results(&Operator::Plus);
    assert_eq!(r.len(), 1);
    assert_eq!(r[0].input, ValueType::U16);
    assert_eq!(r[0].output, ValueType::U16);
    assert_eq!(ValueType::U8.get_operation_results(&Operator::Divide).len(), 1);
    assert!(ValueType::U8.get_operation_results(&Operator::And).is_empty());
    assert!(ValueType::U8.get_operation_results(&Operator::Assign).is_empty());
    assert!(ValueType::Char.get_operation_results(&Operator::Plus).is_empty());
    assert!(pointer(ValueType::U8).get_operation_results(&Operator::Plus).is_empty());
    assert_eq!(ValueType::U32.operation_with(&Operator::Times, &ValueType::U32), Some(ValueType::U32));
    assert_eq!(ValueType::U32.operation_with(&Operator::Times, &ValueType::U8), None);
}

#[test]
fn pointer_test() {
    assert!(pointer(ValueType::U8).is_pointer());
    assert!(!ValueType::U8.is_pointer());
    assert!(!ValueType::Array { content_type: Box::new(pointer(ValueType::U8)), len: 1 }.is_pointer());
}

#[test]
fn structural_equality_and_clone() {
    let a = ValueType::Array { content_type: Box::new(pointer(ValueType::U8)), len: 2 };
    assert_eq!(a.clone(), a);
    assert_ne!(a, ValueType::Array { content_type: Box::new(pointer(ValueType::U16)), len: 2 });
    assert_ne!(a, ValueType::Array { content_type: Box::new(pointer(ValueType::U8)), len: 3 });
}

#[test]
fn type_text() {
    assert_eq!(ValueType::U64.to_text(), "u64");
    assert_eq!(pointer(ValueType::Char).to_text(), "&char");
    assert_eq!(
        ValueType::Array { content_type: Box::new(pointer(ValueType::U8)), len: 1207 }.to_text(),
        "[&u8, 1207]"
    );
    assert_eq!(ValueType::Array { content_type: Box::new(ValueType::U32), len: 0 }.to_text(), "[u32, 0]");
}
