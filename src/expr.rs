use vstd::prelude::*;
use crate::token::{Literal, Operator};
use crate::types::ValueType;

verus! {

broadcast use vstd::std_specs::vec::axiom_vec_index_decreases;

/// An expression of the language. Resolution fills in the optional types and
/// wraps operands in casts, dereferences and references where needed.
#[derive(Debug)]
pub enum Expression {
    NumberLiteral { value: Literal, internal_type: ValueType },
    IdentifierLiteral { value: Literal, type_: Option<ValueType> },
    CharLiteral { value: Literal },
    Operation {
        lhs: Box<Expression>,
        operator: Operator,
        rhs: Box<Expression>,
        type_: Option<ValueType>,
    },
    Array { content: Vec<Expression> },
    Reference { reference: Box<Expression> },
    Deref { value: Box<Expression> },
    Access { value: Box<Expression>, index: Box<Expression> },
    Cast { value: Box<Expression>, to: ValueType },
}

/// The mathematical model of an expression: literal bytes as sequences.
pub enum ExprView {
    NumberLiteral { value: Seq<u8>, internal_type: ValueType },
    IdentifierLiteral { value: Seq<u8>, type_: Option<ValueType> },
    CharLiteral { value: Seq<u8> },
    Operation {
        lhs: Box<ExprView>,
        operator: Operator,
        rhs: Box<ExprView>,
        type_: Option<ValueType>,
    },
    Array { content: Seq<ExprView> },
    Reference { reference: Box<ExprView> },
    Deref { value: Box<ExprView> },
    Access { value: Box<ExprView>, index: Box<ExprView> },
    Cast { value: Box<ExprView>, to: ValueType },
}

impl Expression {
    pub open spec fn view(self) -> ExprView
        decreases self,
    {
        match self {
            Expression::NumberLiteral { value, internal_type } => ExprView::NumberLiteral {
                value: value@,
                internal_type,
            },
            Expression::IdentifierLiteral { value, type_ } => ExprView::IdentifierLiteral {
                value: value@,
                type_,
            },
            Expression::CharLiteral { value } => ExprView::CharLiteral { value: value@ },
            Expression::Operation { lhs, operator, rhs, type_ } => ExprView::Operation {
                lhs: Box::new(lhs.view()),
                operator,
                rhs: Box::new(rhs.view()),
                type_,
            },
            Expression::Array { content } => ExprView::Array {
                content: Seq::new(
                    content.len() as nat,
                    |i: int|
                        if 0 <= i < content.len() {
                            content[i].view()
                        } else {
                            ExprView::CharLiteral { value: Seq::empty() }
                        },
                ),
            },
            Expression::Reference { reference } => ExprView::Reference {
                reference: Box::new(reference.view()),
            },
            Expression::Deref { value } => ExprView::Deref { value: Box::new(value.view()) },
            Expression::Access { value, index } => ExprView::Access {
                value: Box::new(value.view()),
                index: Box::new(index.view()),
            },
            Expression::Cast { value, to } => ExprView::Cast { value: Box::new(value.view()), to },
        }
    }
}

/// The models of a sequence of expressions.
pub open spec fn views(es: Seq<Expression>) -> Seq<ExprView> {
    es.map_values(|e: Expression| e.view())
}

/// The model of an array literal is the array of its elements' models.
pub proof fn lemma_array_view(content: Vec<Expression>)
    ensures
        (Expression::Array { content }).view() == (ExprView::Array { content: views(content@) }),
{
    let v = (Expression::Array { content }).view();
    assert(v->Array_content =~= views(content@));
}

} // verus!
