use vstd::prelude::*;
use crate::expr::{ExprView, Expression};
use crate::token::Literal;
use crate::types::ValueType;

verus! {

/// A statement of the language.
#[derive(Debug)]
pub enum Statement {
    Let { identifier: Literal, type_: ValueType, expression: Option<Expression> },
    Assign { assignee: Expression, expression: Expression },
    Exit { expression: Expression },
    Print { expression: Expression },
}

/// The mathematical model of a statement.
pub enum StmtView {
    Let { identifier: Seq<u8>, type_: ValueType, expression: Option<ExprView> },
    Assign { assignee: ExprView, expression: ExprView },
    Exit { expression: ExprView },
    Print { expression: ExprView },
}

impl Statement {
    pub open spec fn view(self) -> StmtView {
        match self {
            Statement::Let { identifier, type_, expression } => StmtView::Let {
                identifier: identifier@,
                type_,
                expression: match expression {
                    Some(e) => Some(e.view()),
                    None => None,
                },
            },
            Statement::Assign { assignee, expression } => StmtView::Assign {
                assignee: assignee.view(),
                expression: expression.view(),
            },
            Statement::Exit { expression } => StmtView::Exit { expression: expression.view() },
            Statement::Print { expression } => StmtView::Print { expression: expression.view() },
        }
    }
}

} // verus!
