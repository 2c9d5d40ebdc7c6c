use vstd::prelude::*;
use crate::expr::{ExprView, Expression};
use crate::stmt::{Statement, StmtView};
use crate::symbol_table::{ScopesView, SymbolTable, lookup, registered};
use crate::types::{CastVariant, ValueType};

verus! {

broadcast use vstd::seq::axiom_seq_index_decreases;

/// Why an expression or statement could not be resolved.
#[derive(Debug)]
pub enum ResolveError {
    /// An identifier that no active scope binds.
    UnresolvedIdentifier,
    /// A value of type `found` where `expected` is needed, with no cast between them.
    TypeMismatch { expected: ValueType, found: ValueType },
    /// A cast that the cast table does not allow.
    InvalidCast { from: ValueType, to: ValueType },
    /// A dereference, index, reference or assignment applied to an expression
    /// of the wrong shape or type, or an empty array literal.
    InvalidOperand,
}

/// The type of an expression, as far as it is known.
pub open spec fn type_of(e: ExprView) -> Option<ValueType>
    decreases e,
{
    match e {
        ExprView::NumberLiteral { internal_type, .. } => Some(internal_type),
        ExprView::IdentifierLiteral { type_, .. } => type_,
        ExprView::CharLiteral { .. } => Some(ValueType::Char),
        ExprView::Operation { type_, .. } => type_,
        ExprView::Array { content } => if content.len() == 0 {
            None
        } else {
            match type_of(content[0]) {
                Some(t) => Some(ValueType::Array { content_type: Box::new(t), len: content.len() as usize }),
                None => None,
            }
        },
        ExprView::Deref { value } => match type_of(*value) {
            Some(ValueType::Pointer { points_to }) => Some(*points_to),
            _ => None,
        },
        ExprView::Access { value, .. } => match type_of(*value) {
            Some(t) => element_type(t),
            None => None,
        },
        ExprView::Reference { reference } => match type_of(*reference) {
            Some(t) => Some(ValueType::Pointer { points_to: Box::new(t) }),
            None => None,
        },
        ExprView::Cast { to, .. } => Some(to),
    }
}

/// The element type of an array, or of the array a pointer points to.
pub open spec fn element_type(t: ValueType) -> Option<ValueType> {
    match t {
        ValueType::Array { content_type, .. } => Some(*content_type),
        ValueType::Pointer { points_to } => match *points_to {
            ValueType::Array { content_type, .. } => Some(*content_type),
            _ => None,
        },
        _ => None,
    }
}

/// `e`, of type `from`, as a value of type `to`: unchanged if the types are
/// equal, wrapped in a cast if the cast table allows one, else a mismatch.
pub open spec fn coerce(e: ExprView, from: ValueType, to: ValueType) -> Result<ExprView, ResolveError> {
    if from == to {
        Ok(e)
    } else if from.cast_variant(to) is Some {
        Ok(ExprView::Cast { value: Box::new(e), to })
    } else {
        Err(ResolveError::TypeMismatch { expected: to, found: from })
    }
}

/// An operand as a value: a pointer is dereferenced once.
pub open spec fn as_value(e: ExprView) -> ExprView {
    match type_of(e) {
        Some(ValueType::Pointer { .. }) => ExprView::Deref { value: Box::new(e) },
        _ => e,
    }
}

/// The operation `l op r` on resolved operands of types `tl` and `tr`: as is if
/// the operator table defines it; else with the right operand cast to a type
/// the table accepts for it, by an explicit cast; else with the left one
/// cast likewise; else a mismatch.
pub open spec fn combine(
    l: ExprView,
    operator: crate::token::Operator,
    r: ExprView,
    tl: ValueType,
    tr: ValueType,
) -> Result<ExprView, ResolveError> {
    match tl.operation_result(operator, tr) {
        Some(t) => Ok(
            ExprView::Operation { lhs: Box::new(l), operator, rhs: Box::new(r), type_: Some(t) },
        ),
        None => if tl.operation_result(operator, tl) is Some && tr.cast_variant(tl) == Some(
            CastVariant::Explicit,
        ) {
            Ok(
                ExprView::Operation {
                    lhs: Box::new(l),
                    operator,
                    rhs: Box::new(ExprView::Cast { value: Box::new(r), to: tl }),
                    type_: Some(tl),
                },
            )
        } else if tr.operation_result(operator, tr) is Some && tl.cast_variant(tr) == Some(
            CastVariant::Explicit,
        ) {
            Ok(
                ExprView::Operation {
                    lhs: Box::new(ExprView::Cast { value: Box::new(l), to: tr }),
                    operator,
                    rhs: Box::new(r),
                    type_: Some(tr),
                },
            )
        } else {
            Err(ResolveError::TypeMismatch { expected: tl, found: tr })
        },
    }
}

/// The resolved form of `e` under the bindings `env`: every identifier typed,
/// every operation typed, casts and dereferences inserted where the rules
/// call for them; or the first error met, depth first and left to right.
pub open spec fn resolve_expr(e: ExprView, env: ScopesView) -> Result<ExprView, ResolveError>
    decreases e, 0nat,
{
    match e {
        ExprView::NumberLiteral { .. } => Ok(e),
        ExprView::CharLiteral { .. } => Ok(e),
        ExprView::IdentifierLiteral { value, .. } => match lookup(env, value) {
            Some(t) => Ok(ExprView::IdentifierLiteral { value, type_: Some(t) }),
            None => Err(ResolveError::UnresolvedIdentifier),
        },
        ExprView::Array { content } => if content.len() == 0 {
            Err(ResolveError::InvalidOperand)
        } else {
            match resolve_elements(content, 0, env, Seq::empty()) {
                Ok(c) => Ok(ExprView::Array { content: c }),
                Err(x) => Err(x),
            }
        },
        ExprView::Deref { value } => match resolve_expr(*value, env) {
            Ok(v) => match type_of(v) {
                Some(ValueType::Pointer { .. }) => Ok(ExprView::Deref { value: Box::new(v) }),
                _ => Err(ResolveError::InvalidOperand),
            },
            Err(x) => Err(x),
        },
        ExprView::Access { value, index } => match resolve_expr(*value, env) {
            Ok(v) => match type_of(v) {
                Some(t) => if element_type(t) is Some {
                    match resolve_expr(*index, env) {
                        Ok(i) => match type_of(i) {
                            Some(ti) => match coerce(i, ti, ValueType::U64) {
                                Ok(i2) => Ok(ExprView::Access { value: Box::new(v), index: Box::new(i2) }),
                                Err(x) => Err(x),
                            },
                            None => Err(ResolveError::InvalidOperand),
                        },
                        Err(x) => Err(x),
                    }
                } else {
                    Err(ResolveError::InvalidOperand)
                },
                None => Err(ResolveError::InvalidOperand),
            },
            Err(x) => Err(x),
        },
        ExprView::Reference { reference } => match resolve_expr(*reference, env) {
            Ok(r) => if (r is IdentifierLiteral || r is Access) && type_of(r) is Some {
                Ok(ExprView::Reference { reference: Box::new(r) })
            } else {
                Err(ResolveError::InvalidOperand)
            },
            Err(x) => Err(x),
        },
        ExprView::Operation { lhs, operator, rhs, .. } => match resolve_expr(*lhs, env) {
            Ok(l) => match resolve_expr(*rhs, env) {
                Ok(r) => match (type_of(as_value(l)), type_of(as_value(r))) {
                    (Some(tl), Some(tr)) => combine(as_value(l), operator, as_value(r), tl, tr),
                    _ => Err(ResolveError::InvalidOperand),
                },
                Err(x) => Err(x),
            },
            Err(x) => Err(x),
        },
        ExprView::Cast { value, to } => match resolve_expr(*value, env) {
            Ok(v) => match type_of(v) {
                Some(t) => if t.cast_variant(to) is Some {
                    Ok(ExprView::Cast { value: Box::new(v), to })
                } else {
                    Err(ResolveError::InvalidCast { from: t, to })
                },
                None => Err(ResolveError::InvalidOperand),
            },
            Err(x) => Err(x),
        },
    }
}

/// The elements `es[i..]` of an array literal resolved, after the elements
/// `done`; each must have the type of the first.
pub open spec fn resolve_elements(es: Seq<ExprView>, i: int, env: ScopesView, done: Seq<ExprView>) -> Result<
    Seq<ExprView>,
    ResolveError,
>
    decreases es, es.len() - i,
{
    if i < 0 || i >= es.len() {
        Ok(done)
    } else {
        match resolve_expr(es[i], env) {
            Ok(e) => match type_of(e) {
                Some(t) => if done.len() == 0 || type_of(done[0]) == Some(t) {
                    resolve_elements(es, i + 1, env, done.push(e))
                } else {
                    Err(
                        ResolveError::TypeMismatch {
                            expected: type_of(done[0])->Some_0,
                            found: t,
                        },
                    )
                },
                None => Err(ResolveError::InvalidOperand),
            },
            Err(x) => Err(x),
        }
    }
}

fn element_type_of(t: &ValueType) -> (r: Option<ValueType>)
    ensures
        r == element_type(*t),
{
    match t {
        ValueType::Array { content_type, .. } => Some((**content_type).clone()),
        ValueType::Pointer { points_to } => match &**points_to {
            ValueType::Array { content_type, .. } => Some((**content_type).clone()),
            _ => None,
        },
        _ => None,
    }
}

impl Expression {
    /// The type of the expression, if it is known: resolution makes it known.
    pub fn get_type(&self) -> (r: Option<ValueType>)
        ensures
            r == type_of(self.view()),
        decreases self,
    {
        match self {
            Expression::NumberLiteral { internal_type, .. } => Some(internal_type.clone()),
            Expression::IdentifierLiteral { type_, .. } => match type_ {
                Some(t) => Some(t.clone()),
                None => None,
            },
            Expression::CharLiteral { .. } => Some(ValueType::Char),
            Expression::Operation { type_, .. } => match type_ {
                Some(t) => Some(t.clone()),
                None => None,
            },
            Expression::Array { content } => {
                proof {
                    crate::expr::lemma_array_view(*content);
                }
                if content.len() == 0 {
                    None
                } else {
                    match content[0].get_type() {
                        Some(t) => Some(ValueType::Array { content_type: Box::new(t), len: content.len() }),
                        None => None,
                    }
                }
            },
            Expression::Deref { value } => match value.get_type() {
                Some(ValueType::Pointer { points_to }) => Some(*points_to),
                _ => None,
            },
            Expression::Access { value, .. } => match value.get_type() {
                Some(t) => element_type_of(&t),
                None => None,
            },
            Expression::Reference { reference } => match reference.get_type() {
                Some(t) => Some(ValueType::Pointer { points_to: Box::new(t) }),
                None => None,
            },
            Expression::Cast { to, .. } => Some(to.clone()),
        }
    }

    /// `self`, of type `from`, as a value of type `to`.
    fn coerced(self, from: &ValueType, to: &ValueType) -> (r: Result<Expression, ResolveError>)
        ensures
            match coerce(self.view(), *from, *to) {
                Ok(e) => r matches Ok(x) && x.view() == e,
                Err(x) => r matches Err(y) && y == x,
            },
    {
        if *from == *to {
            Ok(self)
        } else if from.cast_to(to).is_some() {
            Ok(Expression::Cast { value: Box::new(self), to: to.clone() })
        } else {
            Err(ResolveError::TypeMismatch { expected: to.clone(), found: from.clone() })
        }
    }

    /// A resolved operand as a value: a pointer is dereferenced once.
    fn as_value(self) -> (r: Expression)
        ensures
            r.view() == as_value(self.view()),
    {
        if let Some(ValueType::Pointer { .. }) = self.get_type() {
            Expression::Deref { value: Box::new(self) }
        } else {
            self
        }
    }

    /// The operation `l operator r` on resolved operands of types `tl` and `tr`.
    fn combined(
        l: Expression,
        operator: crate::token::Operator,
        r: Expression,
        tl: ValueType,
        tr: ValueType,
    ) -> (res: Result<Expression, ResolveError>)
        ensures
            match combine(l.view(), operator, r.view(), tl, tr) {
                Ok(e) => res matches Ok(x) && x.view() == e,
                Err(x) => res matches Err(y) && y == x,
            },
    {
        match tl.operation_with(&operator, &tr) {
            Some(t) => Ok(Expression::Operation { lhs: Box::new(l), operator, rhs: Box::new(r), type_: Some(t) }),
            None => {
                if tl.operation_with(&operator, &tl).is_some() && matches!(tr.cast_to(&tl), Some(CastVariant::Explicit)) {
                    let to = tl.clone();
                    let cast = Expression::Cast { value: Box::new(r), to };
                    assert(cast.view() == (ExprView::Cast { value: Box::new(r.view()), to: tl }));
                    Ok(Expression::Operation { lhs: Box::new(l), operator, rhs: Box::new(cast), type_: Some(tl) })
                } else if tr.operation_with(&operator, &tr).is_some() && matches!(tl.cast_to(&tr), Some(CastVariant::Explicit)) {
                    let to = tr.clone();
                    let cast = Expression::Cast { value: Box::new(l), to };
                    assert(cast.view() == (ExprView::Cast { value: Box::new(l.view()), to: tr }));
                    Ok(Expression::Operation { lhs: Box::new(cast), operator, rhs: Box::new(r), type_: Some(tr) })
                } else {
                    Err(ResolveError::TypeMismatch { expected: tl, found: tr })
                }
            },
        }
    }

    /// Resolves the expression in place under the bindings of `symbol_table`.
    /// On failure the expression is left in an unspecified state.
    pub fn resolve(&mut self, symbol_table: &SymbolTable) -> (r: Result<(), ResolveError>)
        requires
            symbol_table.wf(),
        ensures
            match resolve_expr(old(self).view(), symbol_table@) {
                Ok(e) => r is Ok && final(self).view() == e,
                Err(x) => r matches Err(y) && y == x,
            },
    {
        let mut taken = Expression::CharLiteral { value: Vec::new() };
        core::mem::swap(self, &mut taken);
        match taken.resolved(symbol_table) {
            Ok(e) => {
                *self = e;
                Ok(())
            },
            Err(x) => Err(x),
        }
    }

    /// The resolved form of the expression.
    fn resolved(self, symbol_table: &SymbolTable) -> (r: Result<Expression, ResolveError>)
        requires
            symbol_table.wf(),
        ensures
            match resolve_expr(self.view(), symbol_table@) {
                Ok(e) => r matches Ok(x) && x.view() == e,
                Err(x) => r matches Err(y) && y == x,
            },
        decreases self, 0nat,
    {
        let ghost v = self.view();
        match self {
            Expression::NumberLiteral { value, internal_type } => Ok(
                Expression::NumberLiteral { value, internal_type },
            ),
            Expression::CharLiteral { value } => Ok(Expression::CharLiteral { value }),
            Expression::IdentifierLiteral { value, .. } => match symbol_table.get(&value) {
                Some(t) => Ok(Expression::IdentifierLiteral { value, type_: Some(t.clone()) }),
                None => Err(ResolveError::UnresolvedIdentifier),
            },
            Expression::Array { content } => {
                proof {
                    crate::expr::lemma_array_view(content);
                }
                if content.len() == 0 {
                    return Err(ResolveError::InvalidOperand);
                }
                match Self::resolve_elements(content, symbol_table) {
                    Ok(c) => {
                        proof {
                            crate::expr::lemma_array_view(c);
                        }
                        Ok(Expression::Array { content: c })
                    },
                    Err(x) => Err(x),
                }
            },
            Expression::Deref { value } => {
                let inner = match (*value).resolved(symbol_table) {
                    Ok(x) => x,
                    Err(x) => {
                        return Err(x);
                    },
                };
                if let Some(ValueType::Pointer { .. }) = inner.get_type() {
                    Ok(Expression::Deref { value: Box::new(inner) })
                } else {
                    Err(ResolveError::InvalidOperand)
                }
            },
            Expression::Access { value, index } => {
                let base = match (*value).resolved(symbol_table) {
                    Ok(x) => x,
                    Err(x) => {
                        return Err(x);
                    },
                };
                let base_type = match base.get_type() {
                    Some(t) => t,
                    None => {
                        return Err(ResolveError::InvalidOperand);
                    },
                };
                if element_type_of(&base_type).is_none() {
                    return Err(ResolveError::InvalidOperand);
                }
                let index = match (*index).resolved(symbol_table) {
                    Ok(x) => x,
                    Err(x) => {
                        return Err(x);
                    },
                };
                let index_type = match index.get_type() {
                    Some(t) => t,
                    None => {
                        return Err(ResolveError::InvalidOperand);
                    },
                };
                match index.coerced(&index_type, &ValueType::U64) {
                    Ok(i) => Ok(Expression::Access { value: Box::new(base), index: Box::new(i) }),
                    Err(x) => Err(x),
                }
            },
            Expression::Reference { reference } => {
                let inner = match (*reference).resolved(symbol_table) {
                    Ok(x) => x,
                    Err(x) => {
                        return Err(x);
                    },
                };
                let addressable = match &inner {
                    Expression::IdentifierLiteral { .. } | Expression::Access { .. } => true,
                    _ => false,
                };
                if addressable && inner.get_type().is_some() {
                    Ok(Expression::Reference { reference: Box::new(inner) })
                } else {
                    Err(ResolveError::InvalidOperand)
                }
            },
            Expression::Operation { lhs, operator, rhs, .. } => {
                let l = match (*lhs).resolved(symbol_table) {
                    Ok(x) => x,
                    Err(x) => {
                        return Err(x);
                    },
                };
                let r = match (*rhs).resolved(symbol_table) {
                    Ok(x) => x,
                    Err(x) => {
                        return Err(x);
                    },
                };
                let l = l.as_value();
                let r = r.as_value();
                let tl = match l.get_type() {
                    Some(t) => t,
                    None => {
                        return Err(ResolveError::InvalidOperand);
                    },
                };
                let tr = match r.get_type() {
                    Some(t) => t,
                    None => {
                        return Err(ResolveError::InvalidOperand);
                    },
                };
                Self::combined(l, operator, r, tl, tr)
            },
            Expression::Cast { value, to } => {
                let inner = match (*value).resolved(symbol_table) {
                    Ok(x) => x,
                    Err(x) => {
                        return Err(x);
                    },
                };
                let from = match inner.get_type() {
                    Some(t) => t,
                    None => {
                        return Err(ResolveError::InvalidOperand);
                    },
                };
                if from.cast_to(&to).is_some() {
                    Ok(Expression::Cast { value: Box::new(inner), to })
                } else {
                    Err(ResolveError::InvalidCast { from, to })
                }
            },
        }
    }

    /// The elements of an array literal resolved in order; each must have the
    /// type of the first.
    fn resolve_elements(content: Vec<Expression>, symbol_table: &SymbolTable) -> (r: Result<
        Vec<Expression>,
        ResolveError,
    >)
        requires
            symbol_table.wf(),
        ensures
            match resolve_elements(
                crate::expr::views(content@),
                0,
                symbol_table@,
                Seq::empty(),
            ) {
                Ok(c) => r matches Ok(x) && crate::expr::views(x@) == c,
                Err(x) => r matches Err(y) && y == x,
            },
        decreases content, 1nat,
    {
        let ghost orig = content@;
        let ghost entry = content;
        let ghost es = crate::expr::views(orig);
        let ghost env = symbol_table@;
        let mut rest = content;
        let mut done: Vec<Expression> = Vec::new();
        let mut first: Option<ValueType> = None;
        let mut i: usize = 0;
        let n = rest.len();
        assert(crate::expr::views(done@) =~= Seq::<ExprView>::empty());
        assert(rest@.subrange(0, rest@.len() as int) =~= rest@);
        while rest.len() > 0
            invariant
                symbol_table.wf(),
                env == symbol_table@,
                i + rest@.len() == orig.len(),
                entry@ == orig,
                entry == content,
                orig.len() == n,
                rest@ == orig.subrange(i as int, orig.len() as int),
                es == crate::expr::views(orig),
                resolve_elements(es, 0, env, Seq::empty()) == resolve_elements(
                    es,
                    i as int,
                    env,
                    crate::expr::views(done@),
                ),
                done@.len() == 0 ==> first is None,
                done@.len() > 0 ==> first == type_of(done@[0].view()) && first is Some,
            decreases rest@.len(),
        {
            let e = rest.remove(0);
            assert(e == orig[i as int]);
            assert(es[i as int] == e.view());
            proof {
                vstd::std_specs::vec::axiom_vec_index_decreases(entry, i as int);
            }
            let x = match e.resolved(symbol_table) {
                Ok(x) => x,
                Err(x) => {
                    return Err(x);
                },
            };
            let t = match x.get_type() {
                Some(t) => t,
                None => {
                    return Err(ResolveError::InvalidOperand);
                },
            };
            let ghost before = crate::expr::views(done@);
            match &first {
                Some(f) => {
                    if *f != t {
                        return Err(ResolveError::TypeMismatch { expected: f.clone(), found: t });
                    }
                },
                None => {
                    first = Some(t);
                },
            }
            done.push(x);
            assert(crate::expr::views(done@) =~= before.push(x.view()));
            assert(rest@ =~= orig.subrange(i + 1, orig.len() as int));
            i = i + 1;
        }
        Ok(done)
    }
}

/// The resolved form of a statement and the bindings after it, or the first
/// error. A `let` binds its name in the innermost scope, with or without an
/// initializer; an initializer or an assigned value of another type than the
/// target is cast to it where the cast table has an entry for that, implicit
/// or explicit alike. An assignment's target
/// must be an identifier or an index access; it becomes a reference to it.
#[verifier::opaque]
pub open spec fn resolve_stmt(s: StmtView, env: ScopesView) -> Result<(StmtView, ScopesView), ResolveError> {
    match s {
        StmtView::Let { identifier, type_, expression } => match expression {
            None => Ok((s, registered(env, identifier, type_))),
            Some(e) => match resolve_expr(e, env) {
                Ok(e1) => match type_of(e1) {
                    Some(t) => match coerce(e1, t, type_) {
                        Ok(e2) => Ok(
                            (
                                StmtView::Let { identifier, type_, expression: Some(e2) },
                                registered(env, identifier, type_),
                            ),
                        ),
                        Err(x) => Err(x),
                    },
                    None => Err(ResolveError::InvalidOperand),
                },
                Err(x) => Err(x),
            },
        },
        StmtView::Assign { assignee, expression } => match resolve_expr(assignee, env) {
            Ok(a) => if !(assignee is IdentifierLiteral || assignee is Access) {
                Err(ResolveError::InvalidOperand)
            } else {
                match type_of(a) {
                    Some(target) => match resolve_expr(expression, env) {
                        Ok(v) => match type_of(v) {
                            Some(tv) => match coerce(v, tv, target) {
                                Ok(v2) => Ok(
                                    (
                                        StmtView::Assign {
                                            assignee: ExprView::Reference { reference: Box::new(a) },
                                            expression: v2,
                                        },
                                        env,
                                    ),
                                ),
                                Err(x) => Err(x),
                            },
                            None => Err(ResolveError::InvalidOperand),
                        },
                        Err(x) => Err(x),
                    },
                    None => Err(ResolveError::InvalidOperand),
                }
            },
            Err(x) => Err(x),
        },
        StmtView::Exit { expression } => match resolve_expr(expression, env) {
            Ok(e) => Ok((StmtView::Exit { expression: e }, env)),
            Err(x) => Err(x),
        },
        StmtView::Print { expression } => match resolve_expr(expression, env) {
            Ok(e) => Ok((StmtView::Print { expression: e }, env)),
            Err(x) => Err(x),
        },
    }
}

proof fn lemma_elements_resolved(es: Seq<ExprView>, i: int, env: ScopesView, done: Seq<ExprView>)
    requires
        0 <= i <= es.len(),
        resolve_elements(es, i, env, done) is Ok,
        forall|k: int| 0 <= k < done.len() ==> type_of(#[trigger] done[k]) == type_of(done[0])
            && type_of(done[k]) is Some,
    ensures
        ({
            let c = resolve_elements(es, i, env, done)->Ok_0;
            &&& c.len() == done.len() + es.len() - i
            &&& c.subrange(0, done.len() as int) == done
            &&& forall|k: int|
                done.len() <= k < c.len() ==> resolve_expr(es[i + k - done.len()], env) == Ok::<
                    ExprView,
                    ResolveError,
                >(#[trigger] c[k])
            &&& forall|k: int| 0 <= k < c.len() ==> type_of(#[trigger] c[k]) == type_of(c[0]) && type_of(
                c[k],
            ) is Some
        }),
    decreases es.len() - i,
{
    if i < es.len() {
        let e = resolve_expr(es[i], env)->Ok_0;
        let nd = done.push(e);
        assert forall|k: int| 0 <= k < nd.len() implies type_of(#[trigger] nd[k]) == type_of(nd[0])
            && type_of(nd[k]) is Some by {
            if k < done.len() {
                assert(nd[k] == done[k]);
            }
        }
        lemma_elements_resolved(es, i + 1, env, nd);
        let c = resolve_elements(es, i, env, done)->Ok_0;
        assert(c == resolve_elements(es, i + 1, env, nd)->Ok_0);
        assert(c.subrange(0, nd.len() as int) == nd);
        assert(c.subrange(0, done.len() as int) =~= nd.subrange(0, done.len() as int));
        assert(nd.subrange(0, done.len() as int) =~= done);
        assert(c[done.len() as int] == c.subrange(0, nd.len() as int)[done.len() as int]);
    } else {
        assert(done.subrange(0, done.len() as int) =~= done);
    }
}

proof fn lemma_elements_stable(c: Seq<ExprView>, j: int, env: ScopesView)
    requires
        0 <= j <= c.len(),
        c.len() >= 1,
        forall|k: int| 0 <= k < c.len() ==> resolve_expr(#[trigger] c[k], env) == Ok::<ExprView, ResolveError>(c[k]),
        forall|k: int| 0 <= k < c.len() ==> type_of(#[trigger] c[k]) == type_of(c[0]) && type_of(c[k]) is Some,
    ensures
        resolve_elements(c, j, env, c.subrange(0, j)) == Ok::<Seq<ExprView>, ResolveError>(c),
    decreases c.len() - j,
{
    if j < c.len() {
        assert(c.subrange(0, j).push(c[j]) =~= c.subrange(0, j + 1));
        if j > 0 {
            assert(c.subrange(0, j)[0] == c[0]);
        }
        lemma_elements_stable(c, j + 1, env);
    } else {
        assert(c.subrange(0, j) =~= c);
    }
}

proof fn lemma_operand_stable(l: ExprView, env: ScopesView)
    requires
        resolve_expr(l, env) == Ok::<ExprView, ResolveError>(l),
        type_of(l) is Some,
    ensures
        resolve_expr(as_value(l), env) == Ok::<ExprView, ResolveError>(as_value(l)),
        type_of(as_value(l)) is Some,
{
}

proof fn lemma_cast_stable(v: ExprView, to: ValueType, env: ScopesView)
    requires
        resolve_expr(v, env) == Ok::<ExprView, ResolveError>(v),
        type_of(v) matches Some(t) && t.cast_variant(to) is Some,
    ensures
        resolve_expr(ExprView::Cast { value: Box::new(v), to }, env) == Ok::<ExprView, ResolveError>(
            ExprView::Cast { value: Box::new(v), to },
        ),
{
}

proof fn lemma_combine_stable(
    lv: ExprView,
    operator: crate::token::Operator,
    rv: ExprView,
    tl: ValueType,
    tr: ValueType,
    env: ScopesView,
)
    requires
        resolve_expr(lv, env) == Ok::<ExprView, ResolveError>(lv),
        resolve_expr(rv, env) == Ok::<ExprView, ResolveError>(rv),
        type_of(lv) == Some(tl),
        type_of(rv) == Some(tr),
        combine(lv, operator, rv, tl, tr) is Ok,
    ensures
        resolve_expr(combine(lv, operator, rv, tl, tr)->Ok_0, env) == combine(lv, operator, rv, tl, tr),
        type_of(combine(lv, operator, rv, tl, tr)->Ok_0) is Some,
{
    let r = combine(lv, operator, rv, tl, tr)->Ok_0;
    if tl.operation_result(operator, tr) is Some {
        assert(as_value(lv) == lv);
        assert(as_value(rv) == rv);
    } else if tl.operation_result(operator, tl) is Some && tr.cast_variant(tl) == Some(CastVariant::Explicit) {
        let cr = ExprView::Cast { value: Box::new(rv), to: tl };
        lemma_cast_stable(rv, tl, env);
        assert(as_value(lv) == lv);
        assert(as_value(cr) == cr);
    } else {
        let cl = ExprView::Cast { value: Box::new(lv), to: tr };
        lemma_cast_stable(lv, tr, env);
        assert(as_value(cl) == cl);
        assert(as_value(rv) == rv);
    }
}

/// `e` resolves, and resolving the result again gives it back.
pub open spec fn resolves_stably(e: ExprView, env: ScopesView) -> bool {
    &&& resolve_expr(e, env) is Ok
    &&& resolve_expr(resolve_expr(e, env)->Ok_0, env) == resolve_expr(e, env)
    &&& type_of(resolve_expr(e, env)->Ok_0) is Some
}

proof fn lemma_array_stable(content: Seq<ExprView>, env: ScopesView)
    requires
        resolve_expr(ExprView::Array { content }, env) is Ok,
        forall|k: int| 0 <= k < content.len() && resolve_expr(#[trigger] content[k], env) is Ok
            ==> resolves_stably(content[k], env),
    ensures
        resolves_stably(ExprView::Array { content }, env),
{
    lemma_elements_resolved(content, 0, env, Seq::empty());
    let c = resolve_elements(content, 0, env, Seq::empty())->Ok_0;
    assert forall|k: int| 0 <= k < c.len() implies resolve_expr(#[trigger] c[k], env) == Ok::<
        ExprView,
        ResolveError,
    >(c[k]) by {
        assert(resolve_expr(content[k], env) == Ok::<ExprView, ResolveError>(c[k]));
    }
    lemma_elements_stable(c, 0, env);
    assert(c.subrange(0, 0) =~= Seq::<ExprView>::empty());
}

proof fn lemma_access_stable(value: ExprView, index: ExprView, env: ScopesView)
    requires
        resolve_expr(ExprView::Access { value: Box::new(value), index: Box::new(index) }, env) is Ok,
        resolves_stably(value, env),
        resolves_stably(index, env),
    ensures
        resolves_stably(ExprView::Access { value: Box::new(value), index: Box::new(index) }, env),
{
    let i = resolve_expr(index, env)->Ok_0;
    let ti = type_of(i)->Some_0;
    if ti != ValueType::U64 {
        lemma_cast_stable(i, ValueType::U64, env);
    }
}

proof fn lemma_operation_stable(
    lhs: ExprView,
    operator: crate::token::Operator,
    rhs: ExprView,
    t: Option<ValueType>,
    env: ScopesView,
)
    requires
        resolve_expr(
            ExprView::Operation { lhs: Box::new(lhs), operator, rhs: Box::new(rhs), type_: t },
            env,
        ) is Ok,
        resolves_stably(lhs, env),
        resolves_stably(rhs, env),
    ensures
        resolves_stably(
            ExprView::Operation { lhs: Box::new(lhs), operator, rhs: Box::new(rhs), type_: t },
            env,
        ),
{
    let l = resolve_expr(lhs, env)->Ok_0;
    let rr = resolve_expr(rhs, env)->Ok_0;
    lemma_operand_stable(l, env);
    lemma_operand_stable(rr, env);
    let lv = as_value(l);
    let rv = as_value(rr);
    lemma_combine_stable(lv, operator, rv, type_of(lv)->Some_0, type_of(rv)->Some_0, env);
}

/// Resolution is idempotent: resolving an expression that is already
/// resolved gives it back unchanged, so in particular no further cast is
/// inserted; and a resolved expression has a type.
pub proof fn lemma_resolve_idempotent(e: ExprView, env: ScopesView)
    requires
        resolve_expr(e, env) is Ok,
    ensures
        resolve_expr(resolve_expr(e, env)->Ok_0, env) == resolve_expr(e, env),
        type_of(resolve_expr(e, env)->Ok_0) is Some,
    decreases e,
{
    match e {
        ExprView::Array { content } => {
            assert forall|k: int| 0 <= k < content.len() && resolve_expr(#[trigger] content[k], env) is Ok
                implies resolves_stably(content[k], env) by {
                lemma_resolve_idempotent(content[k], env);
            }
            lemma_array_stable(content, env);
        },
        ExprView::Deref { value } => {
            lemma_resolve_idempotent(*value, env);
        },
        ExprView::Access { value, index } => {
            lemma_resolve_idempotent(*value, env);
            lemma_resolve_idempotent(*index, env);
            lemma_access_stable(*value, *index, env);
        },
        ExprView::Reference { reference } => {
            lemma_resolve_idempotent(*reference, env);
        },
        ExprView::Operation { lhs, operator, rhs, type_ } => {
            lemma_resolve_idempotent(*lhs, env);
            lemma_resolve_idempotent(*rhs, env);
            lemma_operation_stable(*lhs, operator, *rhs, type_, env);
        },
        ExprView::Cast { value, to } => {
            lemma_resolve_idempotent(*value, env);
        },
        _ => {},
    }
}

/// Every cast in `e` is one that the cast table allows from the type of the
/// expression it wraps.
pub open spec fn casts_allowed(e: ExprView) -> bool
    decreases e,
{
    match e {
        ExprView::Cast { value, to } => (type_of(*value) matches Some(t) && t.cast_variant(to) is Some)
            && casts_allowed(*value),
        ExprView::Operation { lhs, rhs, .. } => casts_allowed(*lhs) && casts_allowed(*rhs),
        ExprView::Array { content } => forall|i: int|
            0 <= i < content.len() ==> casts_allowed(#[trigger] content[i]),
        ExprView::Deref { value } => casts_allowed(*value),
        ExprView::Reference { reference } => casts_allowed(*reference),
        ExprView::Access { value, index } => casts_allowed(*value) && casts_allowed(*index),
        _ => true,
    }
}

proof fn lemma_coerce_allowed(e: ExprView, from: ValueType, to: ValueType)
    requires
        casts_allowed(e),
        type_of(e) == Some(from),
        coerce(e, from, to) is Ok,
    ensures
        casts_allowed(coerce(e, from, to)->Ok_0),
{
}

proof fn lemma_combine_allowed(
    lv: ExprView,
    operator: crate::token::Operator,
    rv: ExprView,
    tl: ValueType,
    tr: ValueType,
)
    requires
        casts_allowed(lv),
        casts_allowed(rv),
        type_of(lv) == Some(tl),
        type_of(rv) == Some(tr),
        combine(lv, operator, rv, tl, tr) is Ok,
    ensures
        casts_allowed(combine(lv, operator, rv, tl, tr)->Ok_0),
{
    if tl.operation_result(operator, tr) is None {
        if tl.operation_result(operator, tl) is Some && tr.cast_variant(tl) == Some(CastVariant::Explicit) {
            assert(casts_allowed(ExprView::Cast { value: Box::new(rv), to: tl }));
        } else {
            assert(casts_allowed(ExprView::Cast { value: Box::new(lv), to: tr }));
        }
    }
}

proof fn lemma_operation_allowed(
    lhs: ExprView,
    operator: crate::token::Operator,
    rhs: ExprView,
    t: Option<ValueType>,
    env: ScopesView,
)
    requires
        resolve_expr(
            ExprView::Operation { lhs: Box::new(lhs), operator, rhs: Box::new(rhs), type_: t },
            env,
        ) is Ok,
        resolve_expr(lhs, env) is Ok,
        resolve_expr(rhs, env) is Ok,
        casts_allowed(resolve_expr(lhs, env)->Ok_0),
        casts_allowed(resolve_expr(rhs, env)->Ok_0),
    ensures
        casts_allowed(
            resolve_expr(
                ExprView::Operation { lhs: Box::new(lhs), operator, rhs: Box::new(rhs), type_: t },
                env,
            )->Ok_0,
        ),
{
    let l = as_value(resolve_expr(lhs, env)->Ok_0);
    let r = as_value(resolve_expr(rhs, env)->Ok_0);
    lemma_combine_allowed(l, operator, r, type_of(l)->Some_0, type_of(r)->Some_0);
}

proof fn lemma_access_allowed(value: ExprView, index: ExprView, env: ScopesView)
    requires
        resolve_expr(ExprView::Access { value: Box::new(value), index: Box::new(index) }, env) is Ok,
        resolve_expr(value, env) is Ok,
        resolve_expr(index, env) is Ok,
        casts_allowed(resolve_expr(value, env)->Ok_0),
        casts_allowed(resolve_expr(index, env)->Ok_0),
    ensures
        casts_allowed(
            resolve_expr(ExprView::Access { value: Box::new(value), index: Box::new(index) }, env)->Ok_0,
        ),
{
    let i = resolve_expr(index, env)->Ok_0;
    lemma_coerce_allowed(i, type_of(i)->Some_0, ValueType::U64);
}

proof fn lemma_array_allowed(content: Seq<ExprView>, env: ScopesView)
    requires
        resolve_expr(ExprView::Array { content }, env) is Ok,
        forall|k: int| 0 <= k < content.len() && resolve_expr(#[trigger] content[k], env) is Ok
            ==> casts_allowed(resolve_expr(content[k], env)->Ok_0),
    ensures
        casts_allowed(resolve_expr(ExprView::Array { content }, env)->Ok_0),
{
    lemma_elements_resolved(content, 0, env, Seq::empty());
    let c = resolve_elements(content, 0, env, Seq::empty())->Ok_0;
    assert forall|k: int| 0 <= k < c.len() implies casts_allowed(#[trigger] c[k]) by {
        assert(resolve_expr(content[k], env) == Ok::<ExprView, ResolveError>(c[k]));
    }
}

/// Resolution inserts a cast only where the cast table allows it: every cast
/// in a resolved expression converts from the type of what it wraps to a
/// destination of that type's table.
pub proof fn lemma_resolved_casts_allowed(e: ExprView, env: ScopesView)
    requires
        resolve_expr(e, env) is Ok,
    ensures
        casts_allowed(resolve_expr(e, env)->Ok_0),
    decreases e,
{
    match e {
        ExprView::Array { content } => {
            assert forall|k: int| 0 <= k < content.len() && resolve_expr(#[trigger] content[k], env) is Ok
                implies casts_allowed(resolve_expr(content[k], env)->Ok_0) by {
                lemma_resolved_casts_allowed(content[k], env);
            }
            lemma_array_allowed(content, env);
        },
        ExprView::Deref { value } => {
            lemma_resolved_casts_allowed(*value, env);
        },
        ExprView::Access { value, index } => {
            lemma_resolved_casts_allowed(*value, env);
            lemma_resolved_casts_allowed(*index, env);
            lemma_access_allowed(*value, *index, env);
        },
        ExprView::Reference { reference } => {
            lemma_resolved_casts_allowed(*reference, env);
        },
        ExprView::Operation { lhs, operator, rhs, type_ } => {
            lemma_resolved_casts_allowed(*lhs, env);
            lemma_resolved_casts_allowed(*rhs, env);
            lemma_operation_allowed(*lhs, operator, *rhs, type_, env);
        },
        ExprView::Cast { value, to } => {
            lemma_resolved_casts_allowed(*value, env);
        },
        _ => {},
    }
}

impl Statement {
    /// Resolves the statement in place, registering what it declares in
    /// `symbol_table`. On failure the table is unchanged and the statement is
    /// left in an unspecified state.
    pub fn resolve(&mut self, symbol_table: &mut SymbolTable) -> (r: Result<(), ResolveError>)
        requires
            old(symbol_table).wf(),
        ensures
            final(symbol_table).wf(),
            match resolve_stmt(old(self).view(), old(symbol_table)@) {
                Ok((st, env)) => r is Ok && final(self).view() == st && final(symbol_table)@ == env,
                Err(x) => r matches Err(y) && y == x && final(symbol_table)@ == old(symbol_table)@,
            },
    {
        reveal(resolve_stmt);
        let mut taken = Statement::Exit { expression: Expression::CharLiteral { value: Vec::new() } };
        core::mem::swap(self, &mut taken);
        match taken {
            Statement::Let { identifier, type_, expression } => {
                let expression = match expression {
                    None => None,
                    Some(e) => {
                        let e1 = match e.resolved(symbol_table) {
                            Ok(x) => x,
                            Err(x) => {
                                return Err(x);
                            },
                        };
                        let t = match e1.get_type() {
                            Some(t) => t,
                            None => {
                                return Err(ResolveError::InvalidOperand);
                            },
                        };
                        match e1.coerced(&t, &type_) {
                            Ok(e2) => Some(e2),
                            Err(x) => {
                                return Err(x);
                            },
                        }
                    },
                };
                symbol_table.register(crate::token::copy_bytes(&identifier), type_.clone());
                *self = Statement::Let { identifier, type_, expression };
                Ok(())
            },
            Statement::Assign { assignee, expression } => {
                let addressable = match &assignee {
                    Expression::IdentifierLiteral { .. } | Expression::Access { .. } => true,
                    _ => false,
                };
                let a = match assignee.resolved(symbol_table) {
                    Ok(x) => x,
                    Err(x) => {
                        return Err(x);
                    },
                };
                if !addressable {
                    return Err(ResolveError::InvalidOperand);
                }
                let target = match a.get_type() {
                    Some(t) => t,
                    None => {
                        return Err(ResolveError::InvalidOperand);
                    },
                };
                let v = match expression.resolved(symbol_table) {
                    Ok(x) => x,
                    Err(x) => {
                        return Err(x);
                    },
                };
                let tv = match v.get_type() {
                    Some(t) => t,
                    None => {
                        return Err(ResolveError::InvalidOperand);
                    },
                };
                let v2 = match v.coerced(&tv, &target) {
                    Ok(x) => x,
                    Err(x) => {
                        return Err(x);
                    },
                };
                let reference = Expression::Reference { reference: Box::new(a) };
                assert(reference.view() == (ExprView::Reference { reference: Box::new(a.view()) }));
                *self = Statement::Assign { assignee: reference, expression: v2 };
                Ok(())
            },
            Statement::Exit { expression } => match expression.resolved(symbol_table) {
                Ok(e) => {
                    *self = Statement::Exit { expression: e };
                    Ok(())
                },
                Err(x) => Err(x),
            },
            Statement::Print { expression } => match expression.resolved(symbol_table) {
                Ok(e) => {
                    *self = Statement::Print { expression: e };
                    Ok(())
                },
                Err(x) => Err(x),
            },
        }
    }
}

/// The statements resolved in order, each under the bindings that the ones
/// before it left, and the bindings after the last; or the first error.
pub open spec fn resolve_all(ss: Seq<StmtView>, env: ScopesView) -> Result<(Seq<StmtView>, ScopesView), ResolveError>
    decreases ss.len(),
{
    if ss.len() == 0 {
        Ok((ss, env))
    } else {
        match resolve_stmt(ss[0], env) {
            Ok((s1, env1)) => match resolve_all(ss.drop_first(), env1) {
                Ok((rest, env2)) => Ok((seq![s1] + rest, env2)),
                Err(x) => Err(x),
            },
            Err(x) => Err(x),
        }
    }
}

pub open spec fn stmt_views(ss: Seq<Statement>) -> Seq<StmtView> {
    ss.map_values(|st: Statement| st.view())
}

/// Resolves every statement in order, stopping at the first error.
pub fn resolve_statements(statements: &mut Vec<Statement>, symbol_table: &mut SymbolTable) -> (r: Result<(), ResolveError>)
    requires
        old(symbol_table).wf(),
    ensures
        final(symbol_table).wf(),
        match resolve_all(stmt_views(old(statements)@), old(symbol_table)@) {
            Ok((ss, env)) => r is Ok && stmt_views(final(statements)@) == ss && final(symbol_table)@ == env,
            Err(x) => r matches Err(y) && y == x,
        },
{
    let ghost orig = stmt_views(statements@);
    let ghost env0 = symbol_table@;
    let n = statements.len();
    let mut i: usize = 0;
    assert(orig.subrange(0, n as int) =~= orig);
    assert(stmt_views(statements@).subrange(0, 0) + orig =~= orig);
    proof {
        match resolve_all(orig, env0) {
            Ok((rest, e)) => {
                assert(stmt_views(statements@).subrange(0, 0) + rest =~= rest);
            },
            Err(_) => {},
        }
    }
    while i < n
        invariant
            symbol_table.wf(),
            env0 == old(symbol_table)@,
            orig == stmt_views(old(statements)@),
            statements@.len() == n,
            orig.len() == n,
            i <= n,
            stmt_views(statements@).subrange(i as int, n as int) == orig.subrange(i as int, n as int),
            resolve_all(orig, env0) == match resolve_all(orig.subrange(i as int, n as int), symbol_table@) {
                Ok((rest, e)) => Ok((stmt_views(statements@).subrange(0, i as int) + rest, e)),
                Err(x) => Err::<(Seq<StmtView>, ScopesView), ResolveError>(x),
            },
        decreases n - i,
    {
        let ghost before = statements@;
        let ghost tail = orig.subrange(i as int, n as int);
        assert(tail[0] == before[i as int].view());
        assert(tail.drop_first() =~= orig.subrange(i + 1, n as int));
        let ghost env_i = symbol_table@;
        match statements[i].resolve(symbol_table) {
            Ok(()) => {},
            Err(x) => {
                assert(resolve_stmt(tail[0], env_i) matches Err(y) && y == x);
                assert(resolve_all(tail, env_i) == Err::<(Seq<StmtView>, ScopesView), ResolveError>(x));
                return Err(x);
            },
        }
        assert(statements@ == before.update(i as int, statements@[i as int]));
        assert(stmt_views(statements@).subrange(i + 1, n as int) =~= stmt_views(before).subrange(i + 1, n as int));
        proof {
            let sv = statements@[i as int].view();
            match resolve_all(orig.subrange(i + 1, n as int), symbol_table@) {
                Ok((rest, e)) => {
                    assert(stmt_views(statements@).subrange(0, i + 1) =~= stmt_views(before).subrange(0, i as int).push(sv));
                    assert(stmt_views(before).subrange(0, i as int) + (seq![sv] + rest) =~= stmt_views(statements@).subrange(0, i + 1) + rest);
                },
                Err(_) => {},
            }
        }
        i = i + 1;
    }
    assert(stmt_views(statements@).subrange(0, n as int) =~= stmt_views(statements@));
    assert(orig.subrange(n as int, n as int) =~= Seq::<StmtView>::empty());
    proof {
        match resolve_all(orig, env0) {
            Ok((ss, e)) => {
                assert(stmt_views(statements@) + Seq::<StmtView>::empty() =~= stmt_views(statements@));
            },
            Err(_) => {},
        }
    }
    Ok(())
}

} // verus!
