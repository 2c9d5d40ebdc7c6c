use vstd::prelude::*;
use crate::expr::{ExprView, Expression, lemma_array_view, views};
use crate::stmt::{Statement, StmtView};
use crate::token::{Keyword, Literal, LiteralType, Operator, Token, TypeType, copy_bytes};
use crate::types::ValueType;

verus! {

/// What the grammar needed where parsing failed.
#[derive(Debug, Clone, Copy, PartialEq, Eq, Structural)]
pub enum Expected {
    Statement,
    Identifier,
    Colon,
    Assign,
    Semicolon,
    Type,
    Comma,
    Number,
    OpenParent,
    ClosedParent,
    ClosedBracket,
    Expression,
    InfixOperator,
    PrefixOperator,
}

/// Why a token sequence could not be parsed.
#[derive(Debug, Clone, Copy, PartialEq, Eq, Structural)]
pub enum ParseError {
    /// The tokens ended where the grammar needs `expected`.
    UnexpectedEnd { expected: Expected },
    /// The token at `position` is not what the grammar allows there.
    UnexpectedToken { position: usize, expected: Expected },
    /// The number literal at `position` is not a run of decimal digits.
    InvalidNumber { position: usize },
    /// The number literal at `position` is too large.
    Overflow { position: usize },
}

/// Binding strength of operators, from loosest to tightest.
#[derive(Debug, Clone, Copy, PartialEq, Eq, Structural)]
pub enum Precedence {
    Lowest,
    Sum,
    Product,
    Prefix,
    Postfix,
}

pub open spec fn rank(p: Precedence) -> nat {
    match p {
        Precedence::Lowest => 0,
        Precedence::Sum => 1,
        Precedence::Product => 2,
        Precedence::Prefix => 3,
        Precedence::Postfix => 4,
    }
}

pub open spec fn operator_precedence(o: Operator) -> Option<Precedence> {
    match o {
        Operator::Plus | Operator::Minus => Some(Precedence::Sum),
        Operator::Times | Operator::Divide => Some(Precedence::Product),
        Operator::And => Some(Precedence::Prefix),
        Operator::Assign => None,
    }
}

/// The precedence of a token that continues an expression: an operator or `[`.
pub open spec fn token_precedence(t: Token) -> Option<Precedence> {
    match t {
        Token::Operation { operator } => operator_precedence(operator),
        Token::OpenBracket => Some(Precedence::Postfix),
        _ => None,
    }
}

pub open spec fn is_digit_byte(b: u8) -> bool {
    48 <= b <= 57
}

/// A non-empty run of decimal digits.
pub open spec fn is_decimal(v: Seq<u8>) -> bool {
    v.len() > 0 && forall|i: int| 0 <= i < v.len() ==> is_digit_byte(#[trigger] v[i])
}

/// The number that a run of decimal digits stands for.
pub open spec fn decimal_value(v: Seq<u8>) -> nat
    decreases v.len(),
{
    if v.len() == 0 {
        0
    } else {
        decimal_value(v.drop_last()) * 10 + (v.last() - 48) as nat
    }
}

/// The narrowest unsigned type that holds the number literal `v`.
pub open spec fn number_type(v: Seq<u8>) -> Option<ValueType> {
    let n = decimal_value(v);
    if !is_decimal(v) {
        None
    } else if n < 0x100 {
        Some(ValueType::U8)
    } else if n < 0x1_0000 {
        Some(ValueType::U16)
    } else if n < 0x1_0000_0000 {
        Some(ValueType::U32)
    } else if n < 0x1_0000_0000_0000_0000 {
        Some(ValueType::U64)
    } else {
        None
    }
}

/// The error for a number literal at `p` that no type holds.
pub open spec fn number_error(v: Seq<u8>, p: int) -> ParseError {
    if is_decimal(v) {
        ParseError::Overflow { position: p as usize }
    } else {
        ParseError::InvalidNumber { position: p as usize }
    }
}

/// A string literal's bytes as char literals, one per byte, except that a
/// backslash and the byte after it form one two-byte char literal.
pub open spec fn string_chars(v: Seq<u8>) -> Seq<ExprView>
    decreases v.len(),
{
    if v.len() == 0 {
        Seq::empty()
    } else if v[0] == 92 && v.len() >= 2 {
        seq![ExprView::CharLiteral { value: v.subrange(0, 2) }] + string_chars(v.subrange(2, v.len() as int))
    } else {
        seq![ExprView::CharLiteral { value: v.subrange(0, 1) }] + string_chars(v.subrange(1, v.len() as int))
    }
}

pub open spec fn type_of_name(t: TypeType) -> ValueType {
    match t {
        TypeType::U64 => ValueType::U64,
        TypeType::U32 => ValueType::U32,
        TypeType::U16 => ValueType::U16,
        TypeType::U8 => ValueType::U8,
        TypeType::Char => ValueType::Char,
    }
}

/// The error for a missing `expected` at `p`.
pub open spec fn missing(ts: Seq<Token>, p: int, expected: Expected) -> ParseError {
    if p >= ts.len() {
        ParseError::UnexpectedEnd { expected }
    } else {
        ParseError::UnexpectedToken { position: p as usize, expected }
    }
}

/// `ts[p]` is the token `t`, which carries no literal.
pub open spec fn is_token_at(ts: Seq<Token>, p: int, t: Token) -> bool {
    0 <= p < ts.len() && ts[p] == t
}

/// A parse result: what was parsed and the position after it.
pub type Parsed<T> = Result<(T, int), ParseError>;

/// `type := TYPENAME | '&' type | '[' type ',' NUMBER ']'`, starting at `p`.
pub open spec fn type_at(ts: Seq<Token>, p: int) -> Parsed<ValueType>
    decreases ts.len() - p,
{
    if p < 0 || p >= ts.len() {
        Err(ParseError::UnexpectedEnd { expected: Expected::Type })
    } else {
        match ts[p] {
            Token::Operation { operator: Operator::And } => match type_at(ts, p + 1) {
                Ok((t, q)) => Ok((ValueType::Pointer { points_to: Box::new(t) }, q)),
                Err(e) => Err(e),
            },
            Token::Type { type_ } => Ok((type_of_name(type_), p + 1)),
            Token::OpenBracket => match type_at(ts, p + 1) {
                Ok((t, q)) => if !is_token_at(ts, q, Token::Comma) {
                    Err(missing(ts, q, Expected::Comma))
                } else if !(0 <= q + 1 < ts.len() && ts[q + 1] matches Token::Literal {
                    type_: LiteralType::Number,
                    ..
                }) {
                    Err(missing(ts, q + 1, Expected::Number))
                } else {
                    let v = ts[q + 1]->Literal_value@;
                    if !is_decimal(v) {
                        Err(ParseError::InvalidNumber { position: (q + 1) as usize })
                    } else if decimal_value(v) > usize::MAX {
                        Err(ParseError::Overflow { position: (q + 1) as usize })
                    } else if !is_token_at(ts, q + 2, Token::ClosedBracket) {
                        Err(missing(ts, q + 2, Expected::ClosedBracket))
                    } else {
                        Ok(
                            (
                                ValueType::Array {
                                    content_type: Box::new(t),
                                    len: decimal_value(v) as usize,
                                },
                                q + 3,
                            ),
                        )
                    }
                },
                Err(e) => Err(e),
            },
            _ => Err(ParseError::UnexpectedToken { position: p as usize, expected: Expected::Type }),
        }
    }
}

/// `expr` with binding threshold `prec`, starting at `p`: one primary
/// expression, then every operator that binds tighter than `prec`.
pub open spec fn expr_at(ts: Seq<Token>, p: int, prec: Precedence) -> Parsed<ExprView>
    decreases ts.len() - p, 2nat,
{
    match primary_at(ts, p) {
        Ok((left, q)) => if p < q <= ts.len() {
            climb(ts, q, prec, left)
        } else {
            Err(ParseError::UnexpectedToken { position: p as usize, expected: Expected::Expression })
        },
        Err(e) => Err(e),
    }
}

/// A primary expression at `p`: a literal, a prefix operation, a parenthesized
/// expression or an array literal.
pub open spec fn primary_at(ts: Seq<Token>, p: int) -> Parsed<ExprView>
    decreases ts.len() - p, 1nat,
{
    if p < 0 || p >= ts.len() {
        Err(ParseError::UnexpectedEnd { expected: Expected::Expression })
    } else {
        match ts[p] {
            Token::Literal { type_: LiteralType::Identifier, value } => Ok(
                (ExprView::IdentifierLiteral { value: value@, type_: None }, p + 1),
            ),
            Token::Literal { type_: LiteralType::Number, value } => match number_type(value@) {
                Some(t) => Ok((ExprView::NumberLiteral { value: value@, internal_type: t }, p + 1)),
                None => Err(number_error(value@, p)),
            },
            Token::Literal { type_: LiteralType::Char, value } => Ok(
                (ExprView::CharLiteral { value: value@ }, p + 1),
            ),
            Token::Literal { type_: LiteralType::String, value } => Ok(
                (ExprView::Array { content: string_chars(value@) }, p + 1),
            ),
            Token::Operation { operator } => if operator != Operator::Times && operator
                != Operator::And {
                Err(ParseError::UnexpectedToken { position: p as usize, expected: Expected::PrefixOperator })
            } else {
                match expr_at(ts, p + 1, Precedence::Prefix) {
                    Ok((e, q)) => if operator == Operator::Times {
                        Ok((ExprView::Deref { value: Box::new(e) }, q))
                    } else {
                        Ok((ExprView::Reference { reference: Box::new(e) }, q))
                    },
                    Err(e) => Err(e),
                }
            },
            Token::OpenParent => match expr_at(ts, p + 1, Precedence::Lowest) {
                Ok((e, q)) => if is_token_at(ts, q, Token::ClosedParent) {
                    Ok((e, q + 1))
                } else {
                    Err(missing(ts, q, Expected::ClosedParent))
                },
                Err(e) => Err(e),
            },
            Token::OpenBracket => elements_at(ts, p + 1, Seq::empty()),
            _ => Err(ParseError::UnexpectedToken { position: p as usize, expected: Expected::Expression }),
        }
    }
}

/// The elements of an array literal from `p` on, after the elements `done`,
/// through the closing `]`.
pub open spec fn elements_at(ts: Seq<Token>, p: int, done: Seq<ExprView>) -> Parsed<ExprView>
    decreases ts.len() - p, 3nat,
{
    match expr_at(ts, p, Precedence::Lowest) {
        Ok((e, q)) => if is_token_at(ts, q, Token::Comma) {
            if p < q {
                elements_at(ts, q + 1, done.push(e))
            } else {
                Err(ParseError::UnexpectedToken { position: p as usize, expected: Expected::Expression })
            }
        } else if is_token_at(ts, q, Token::ClosedBracket) {
            Ok((ExprView::Array { content: done.push(e) }, q + 1))
        } else {
            Err(missing(ts, q, Expected::ClosedBracket))
        },
        Err(e) => Err(e),
    }
}

/// Extends `left` with the infix operations and index accesses from `p` on
/// that bind tighter than `prec`, folding to the left.
pub open spec fn climb(ts: Seq<Token>, p: int, prec: Precedence, left: ExprView) -> Parsed<ExprView>
    decreases ts.len() - p, 0nat,
{
    if p < 0 || p >= ts.len() {
        Ok((left, p))
    } else {
        match token_precedence(ts[p]) {
            None => Ok((left, p)),
            Some(op_prec) => if rank(prec) >= rank(op_prec) {
                Ok((left, p))
            } else {
                match ts[p] {
                    Token::Operation { operator } => if !operator.is_arithmetic() {
                        Err(
                            ParseError::UnexpectedToken {
                                position: p as usize,
                                expected: Expected::InfixOperator,
                            },
                        )
                    } else {
                        match expr_at(ts, p + 1, op_prec) {
                            Ok((right, q)) => if p < q <= ts.len() {
                                climb(
                                    ts,
                                    q,
                                    prec,
                                    ExprView::Operation {
                                        lhs: Box::new(left),
                                        operator,
                                        rhs: Box::new(right),
                                        type_: None,
                                    },
                                )
                            } else {
                                Err(
                                    ParseError::UnexpectedToken {
                                        position: p as usize,
                                        expected: Expected::Expression,
                                    },
                                )
                            },
                            Err(e) => Err(e),
                        }
                    },
                    _ => match expr_at(ts, p + 1, Precedence::Lowest) {
                        Ok((index, q)) => if !is_token_at(ts, q, Token::ClosedBracket) {
                            Err(missing(ts, q, Expected::ClosedBracket))
                        } else if p < q {
                            climb(
                                ts,
                                q + 1,
                                prec,
                                ExprView::Access { value: Box::new(left), index: Box::new(index) },
                            )
                        } else {
                            Err(
                                ParseError::UnexpectedToken {
                                    position: p as usize,
                                    expected: Expected::Expression,
                                },
                            )
                        },
                        Err(e) => Err(e),
                    },
                }
            },
        }
    }
}

/// `'(' expr ')'` at `p`: the argument of `exit` and `print`.
pub open spec fn argument_at(ts: Seq<Token>, p: int) -> Parsed<ExprView> {
    if !is_token_at(ts, p, Token::OpenParent) {
        Err(missing(ts, p, Expected::OpenParent))
    } else {
        match expr_at(ts, p + 1, Precedence::Lowest) {
            Ok((e, q)) => if is_token_at(ts, q, Token::ClosedParent) {
                Ok((e, q + 1))
            } else {
                Err(missing(ts, q, Expected::ClosedParent))
            },
            Err(e) => Err(e),
        }
    }
}

/// `IDENT ':' type '=' [expr] ';'` at `p`, after `let`.
pub open spec fn let_at(ts: Seq<Token>, p: int) -> Parsed<StmtView> {
    if !(0 <= p < ts.len() && ts[p] matches Token::Literal { type_: LiteralType::Identifier, .. }) {
        Err(missing(ts, p, Expected::Identifier))
    } else if !is_token_at(ts, p + 1, Token::Colon) {
        Err(missing(ts, p + 1, Expected::Colon))
    } else {
        let name = ts[p]->Literal_value@;
        match type_at(ts, p + 2) {
            Ok((t, q)) => if !is_token_at(ts, q, Token::Operation { operator: Operator::Assign }) {
                Err(missing(ts, q, Expected::Assign))
            } else if is_token_at(ts, q + 1, Token::Semicolon) {
                Ok((StmtView::Let { identifier: name, type_: t, expression: None }, q + 2))
            } else {
                match expr_at(ts, q + 1, Precedence::Lowest) {
                    Ok((e, r)) => if is_token_at(ts, r, Token::Semicolon) {
                        Ok((StmtView::Let { identifier: name, type_: t, expression: Some(e) }, r + 1))
                    } else {
                        Err(missing(ts, r, Expected::Semicolon))
                    },
                    Err(e) => Err(e),
                }
            },
            Err(e) => Err(e),
        }
    }
}

/// `expr '=' expr ';'` at `p`.
pub open spec fn assign_at(ts: Seq<Token>, p: int) -> Parsed<StmtView> {
    match expr_at(ts, p, Precedence::Lowest) {
        Ok((a, q)) => if !is_token_at(ts, q, Token::Operation { operator: Operator::Assign }) {
            Err(missing(ts, q, Expected::Assign))
        } else {
            match expr_at(ts, q + 1, Precedence::Lowest) {
                Ok((e, r)) => if is_token_at(ts, r, Token::Semicolon) {
                    Ok((StmtView::Assign { assignee: a, expression: e }, r + 1))
                } else {
                    Err(missing(ts, r, Expected::Semicolon))
                },
                Err(e) => Err(e),
            }
        },
        Err(e) => Err(e),
    }
}

/// One statement at `p`.
pub open spec fn statement_at(ts: Seq<Token>, p: int) -> Parsed<StmtView> {
    if p < 0 || p >= ts.len() {
        Err(ParseError::UnexpectedEnd { expected: Expected::Statement })
    } else {
        match ts[p] {
            Token::Keyword { keyword: Keyword::Let } => let_at(ts, p + 1),
            Token::Keyword { keyword: Keyword::Exit } => match argument_at(ts, p + 1) {
                Ok((e, q)) => Ok((StmtView::Exit { expression: e }, q)),
                Err(e) => Err(e),
            },
            Token::Keyword { keyword: Keyword::Print } => match argument_at(ts, p + 1) {
                Ok((e, q)) => Ok((StmtView::Print { expression: e }, q)),
                Err(e) => Err(e),
            },
            _ => assign_at(ts, p),
        }
    }
}

/// The statements from `p` to the end, or the first error.
pub open spec fn statements_from(ts: Seq<Token>, p: int) -> Result<Seq<StmtView>, ParseError>
    decreases ts.len() - p,
{
    if p < 0 || p >= ts.len() {
        Ok(Seq::empty())
    } else {
        match statement_at(ts, p) {
            Ok((st, q)) => if p < q <= ts.len() {
                match statements_from(ts, q) {
                    Ok(rest) => Ok(seq![st] + rest),
                    Err(e) => Err(e),
                }
            } else {
                Err(ParseError::UnexpectedToken { position: p as usize, expected: Expected::Statement })
            },
            Err(e) => Err(e),
        }
    }
}

pub open spec fn parsed_expr(r: Result<Expression, ParseError>, end: int) -> Parsed<ExprView> {
    match r {
        Ok(e) => Ok((e.view(), end)),
        Err(x) => Err(x),
    }
}

pub open spec fn parsed_type(r: Result<ValueType, ParseError>, end: int) -> Parsed<ValueType> {
    match r {
        Ok(t) => Ok((t, end)),
        Err(x) => Err(x),
    }
}

pub open spec fn parsed_stmt(r: Result<Statement, ParseError>, end: int) -> Parsed<StmtView> {
    match r {
        Ok(s) => Ok((s.view(), end)),
        Err(x) => Err(x),
    }
}

pub proof fn lemma_decimal_prefix(v: Seq<u8>, i: int)
    requires
        0 <= i <= v.len(),
    ensures
        decimal_value(v.subrange(0, i)) <= decimal_value(v),
    decreases v.len() - i,
{
    if i < v.len() {
        lemma_decimal_prefix(v.drop_last(), i);
        assert(v.drop_last().subrange(0, i) =~= v.subrange(0, i));
    } else {
        assert(v.subrange(0, i) =~= v);
    }
}

fn is_decimal_bytes(v: &Vec<u8>) -> (r: bool)
    ensures
        r == is_decimal(v@),
{
    if v.len() == 0 {
        return false;
    }
    let mut i: usize = 0;
    while i < v.len()
        invariant
            i <= v@.len(),
            forall|k: int| 0 <= k < i ==> is_digit_byte(#[trigger] v@[k]),
        decreases v.len() - i,
    {
        if !(48 <= v[i] && v[i] <= 57) {
            return false;
        }
        i = i + 1;
    }
    true
}

/// The value of a run of decimal digits, if it fits in 64 bits.
fn decimal_u64(v: &Vec<u8>) -> (r: Option<u64>)
    requires
        is_decimal(v@),
    ensures
        r matches Some(n) ==> n == decimal_value(v@),
        r is None ==> decimal_value(v@) > u64::MAX,
{
    let mut acc: u64 = 0;
    let mut i: usize = 0;
    while i < v.len()
        invariant
            is_decimal(v@),
            i <= v@.len(),
            acc == decimal_value(v@.subrange(0, i as int)),
        decreases v.len() - i,
    {
        let d = (v[i] - 48) as u64;
        assert(is_digit_byte(v@[i as int]));
        assert(v@.subrange(0, i + 1).drop_last() =~= v@.subrange(0, i as int));
        if acc > 1844674407370955161 || (acc == 1844674407370955161 && d > 5) {
            proof {
                lemma_decimal_prefix(v@, i + 1);
            }
            return None;
        }
        acc = acc * 10 + d;
        i = i + 1;
    }
    assert(v@.subrange(0, v@.len() as int) =~= v@);
    Some(acc)
}

fn rank_of(p: Precedence) -> (r: u8)
    ensures
        r == rank(p),
{
    match p {
        Precedence::Lowest => 0,
        Precedence::Sum => 1,
        Precedence::Product => 2,
        Precedence::Prefix => 3,
        Precedence::Postfix => 4,
    }
}

fn value_type_of(t: TypeType) -> (r: ValueType)
    ensures
        r == type_of_name(t),
{
    match t {
        TypeType::U64 => ValueType::U64,
        TypeType::U32 => ValueType::U32,
        TypeType::U16 => ValueType::U16,
        TypeType::U8 => ValueType::U8,
        TypeType::Char => ValueType::Char,
    }
}

impl Token {
    /// The precedence of a token that continues an expression.
    pub fn get_precedence(&self) -> (r: Option<Precedence>)
        ensures
            r == token_precedence(*self),
    {
        match self {
            Token::Operation { operator } => operator.get_precedence(),
            Token::OpenBracket => Some(Precedence::Postfix),
            _ => None,
        }
    }
}

impl Operator {
    /// The precedence of an operator; `=` has none.
    pub fn get_precedence(&self) -> (r: Option<Precedence>)
        ensures
            r == operator_precedence(*self),
    {
        match self {
            Operator::Plus | Operator::Minus => Some(Precedence::Sum),
            Operator::Times | Operator::Divide => Some(Precedence::Product),
            Operator::And => Some(Precedence::Prefix),
            Operator::Assign => None,
        }
    }
}

/// Parses a token sequence into statements by recursive descent, with
/// precedence climbing for expressions.
pub struct Parser {
    tokens: Vec<Token>,
    position: usize,
}

impl Parser {
    pub closed spec fn tokens(self) -> Seq<Token> {
        self.tokens@
    }

    pub closed spec fn position(self) -> int {
        self.position as int
    }

    pub closed spec fn wf(self) -> bool {
        self.position <= self.tokens@.len()
    }

    pub fn new(tokens: Vec<Token>) -> (r: Parser)
        ensures
            r.wf(),
            r.tokens() == tokens@,
            r.position() == 0,
    {
        Parser { tokens, position: 0 }
    }

    fn peek_token(&self) -> (r: Option<&Token>)
        ensures
            r is None <==> self.position >= self.tokens@.len(),
            r matches Some(t) ==> *t == self.tokens@[self.position as int],
    {
        if self.position < self.tokens.len() {
            Some(&self.tokens[self.position])
        } else {
            None
        }
    }

    fn consume_token(&mut self)
        requires
            old(self).position < old(self).tokens@.len(),
        ensures
            final(self).tokens == old(self).tokens,
            final(self).position == old(self).position + 1,
    {
        assert(self.position < self.tokens.len());
        self.position = self.position + 1;
    }

    /// The error for a missing `expected` at `position`.
    fn missing_at(&self, position: usize, expected: Expected) -> (r: ParseError)
        ensures
            r == missing(self.tokens@, position as int, expected),
    {
        if position >= self.tokens.len() {
            ParseError::UnexpectedEnd { expected }
        } else {
            ParseError::UnexpectedToken { position, expected }
        }
    }

    /// Consumes the next token if it is `t`; else fails, naming `expected`.
    fn expect(&mut self, t: Token, expected: Expected) -> (r: Result<(), ParseError>)
        requires
            old(self).wf(),
            !(t is Literal),
        ensures
            final(self).wf(),
            final(self).tokens == old(self).tokens,
            is_token_at(old(self).tokens@, old(self).position as int, t) ==> r is Ok
                && final(self).position == old(self).position + 1,
            !is_token_at(old(self).tokens@, old(self).position as int, t) ==> r == Err::<(), ParseError>(
                missing(old(self).tokens@, old(self).position as int, expected),
            ),
    {
        let position = self.position;
        let found = match self.peek_token() {
            Some(next) => *next == t,
            None => false,
        };
        if found {
            self.consume_token();
            Ok(())
        } else {
            Err(self.missing_at(position, expected))
        }
    }

    fn get_keyword(&mut self) -> (r: Option<Keyword>)
        requires
            old(self).wf(),
        ensures
            final(self).wf(),
            final(self).tokens == old(self).tokens,
            ({
                let ts = old(self).tokens@;
                let p = old(self).position as int;
                if p < ts.len() && ts[p] is Keyword {
                    r == Some(ts[p]->keyword) && final(self).position == p + 1
                } else {
                    r is None && final(self).position == p
                }
            }),
    {
        let k = match self.peek_token() {
            Some(Token::Keyword { keyword }) => Some(*keyword),
            _ => None,
        };
        if k.is_some() {
            self.consume_token();
        }
        k
    }

    fn get_literal(&mut self) -> (r: Option<(LiteralType, Literal)>)
        requires
            old(self).wf(),
        ensures
            final(self).wf(),
            final(self).tokens == old(self).tokens,
            ({
                let ts = old(self).tokens@;
                let p = old(self).position as int;
                if p < ts.len() && ts[p] is Literal {
                    r matches Some((k, v)) && k == ts[p]->Literal_type_ && v@ == ts[p]->Literal_value@
                        && final(self).position == p + 1
                } else {
                    r is None && final(self).position == p
                }
            }),
    {
        let l = match self.peek_token() {
            Some(Token::Literal { type_, value }) => Some((*type_, copy_bytes(value))),
            _ => None,
        };
        if l.is_some() {
            self.consume_token();
        }
        l
    }

    fn get_type(&mut self) -> (r: Option<TypeType>)
        requires
            old(self).wf(),
        ensures
            final(self).wf(),
            final(self).tokens == old(self).tokens,
            ({
                let ts = old(self).tokens@;
                let p = old(self).position as int;
                if p < ts.len() && ts[p] is Type {
                    r == Some(ts[p]->Type_type_) && final(self).position == p + 1
                } else {
                    r is None && final(self).position == p
                }
            }),
    {
        let t = match self.peek_token() {
            Some(Token::Type { type_ }) => Some(*type_),
            _ => None,
        };
        if t.is_some() {
            self.consume_token();
        }
        t
    }

    fn get_operation(&mut self) -> (r: Option<Operator>)
        requires
            old(self).wf(),
        ensures
            final(self).wf(),
            final(self).tokens == old(self).tokens,
            ({
                let ts = old(self).tokens@;
                let p = old(self).position as int;
                if p < ts.len() && ts[p] is Operation {
                    r == Some(ts[p]->operator) && final(self).position == p + 1
                } else {
                    r is None && final(self).position == p
                }
            }),
    {
        let o = match self.peek_token() {
            Some(Token::Operation { operator }) => Some(*operator),
            _ => None,
        };
        if o.is_some() {
            self.consume_token();
        }
        o
    }

    fn peek_precedence(&self) -> (r: Option<Precedence>)
        ensures
            r == (if self.position < self.tokens@.len() {
                token_precedence(self.tokens@[self.position as int])
            } else {
                None
            }),
    {
        match self.peek_token() {
            Some(token) => token.get_precedence(),
            None => None,
        }
    }
}

impl Parser {
    /// The number literal `value`, found at `position`, typed with the
    /// narrowest unsigned type that holds it.
    fn parse_number_literal(value: Literal, position: usize) -> (r: Result<Expression, ParseError>)
        ensures
            match number_type(value@) {
                Some(t) => r matches Ok(e) && e.view() == (ExprView::NumberLiteral {
                    value: value@,
                    internal_type: t,
                }),
                None => r == Err::<Expression, ParseError>(number_error(value@, position as int)),
            },
    {
        if !is_decimal_bytes(&value) {
            return Err(ParseError::InvalidNumber { position });
        }
        let type_ = match decimal_u64(&value) {
            Some(n) => if n <= 0xff {
                ValueType::U8
            } else if n <= 0xffff {
                ValueType::U16
            } else if n <= 0xffff_ffff {
                ValueType::U32
            } else {
                ValueType::U64
            },
            None => {
                return Err(ParseError::Overflow { position });
            },
        };
        Ok(Expression::NumberLiteral { value, internal_type: type_ })
    }

    /// A string literal as an array of char literals.
    fn string_to_char_array(string: Literal) -> (r: Vec<Expression>)
        ensures
            views(r@) == string_chars(string@),
    {
        let mut chars: Vec<Expression> = Vec::new();
        let mut i: usize = 0;
        let ghost v = string@;
        assert(v.subrange(0, v.len() as int) =~= v);
        while i < string.len()
            invariant
                i <= v.len(),
                v == string@,
                string_chars(v) == views(chars@) + string_chars(v.subrange(i as int, v.len() as int)),
            decreases string.len() - i,
        {
            let ghost rest = v.subrange(i as int, v.len() as int);
            let ghost before = chars@;
            let c = string[i];
            let ghost k: int;
            if c == 92 && i + 1 < string.len() {
                let unit = vec![c, string[i + 1]];
                assert(unit@ =~= rest.subrange(0, 2));
                assert(rest.subrange(2, rest.len() as int) =~= v.subrange(i + 2, v.len() as int));
                chars.push(Expression::CharLiteral { value: unit });
                proof {
                    k = 2;
                }
                i = i + 2;
            } else {
                let unit = vec![c];
                assert(unit@ =~= rest.subrange(0, 1));
                assert(rest.subrange(1, rest.len() as int) =~= v.subrange(i + 1, v.len() as int));
                chars.push(Expression::CharLiteral { value: unit });
                proof {
                    k = 1;
                }
                i = i + 1;
            }
            let ghost unit_view = ExprView::CharLiteral { value: rest.subrange(0, k) };
            assert(string_chars(rest) == seq![unit_view] + string_chars(v.subrange(i as int, v.len() as int)));
            assert(chars@ == before.push(chars@.last()));
            assert(views(chars@) =~= views(before).push(unit_view));
            assert(views(before) + string_chars(rest) =~= views(chars@) + string_chars(
                v.subrange(i as int, v.len() as int),
            ));
        }
        assert(v.subrange(i as int, v.len() as int) =~= Seq::<u8>::empty());
        assert(views(chars@) + Seq::<ExprView>::empty() =~= views(chars@));
        chars
    }

    /// `type := TYPENAME | '&' type | '[' type ',' NUMBER ']'`
    fn parse_type(&mut self) -> (r: Result<ValueType, ParseError>)
        requires
            old(self).wf(),
        ensures
            final(self).wf(),
            final(self).tokens == old(self).tokens,
            type_at(old(self).tokens@, old(self).position as int) == parsed_type(r, final(self).position as int),
            r is Ok ==> old(self).position < final(self).position,
        decreases old(self).tokens@.len() - old(self).position,
    {
        let start = self.position;
        let is_pointer = match self.peek_token() {
            Some(Token::Operation { operator: Operator::And }) => true,
            _ => false,
        };
        if is_pointer {
            self.consume_token();
            return match self.parse_type() {
                Ok(t) => Ok(ValueType::Pointer { points_to: Box::new(t) }),
                Err(e) => Err(e),
            };
        }
        if let Some(type_) = self.get_type() {
            return Ok(value_type_of(type_));
        }
        let is_array = match self.peek_token() {
            Some(Token::OpenBracket) => true,
            _ => false,
        };
        if !is_array {
            return Err(self.missing_at(start, Expected::Type));
        }
        self.consume_token();
        let content_type = match self.parse_type() {
            Ok(t) => t,
            Err(e) => {
                return Err(e);
            },
        };
        match self.expect(Token::Comma, Expected::Comma) {
            Ok(()) => {},
            Err(e) => {
                return Err(e);
            },
        }
        let position = self.position;
        let len = match self.get_literal() {
            Some((LiteralType::Number, value)) => value,
            _ => {
                return Err(self.missing_at(position, Expected::Number));
            },
        };
        if !is_decimal_bytes(&len) {
            return Err(ParseError::InvalidNumber { position });
        }
        let n = match decimal_u64(&len) {
            Some(n) => n,
            None => {
                return Err(ParseError::Overflow { position });
            },
        };
        if n > usize::MAX as u64 {
            return Err(ParseError::Overflow { position });
        }
        match self.expect(Token::ClosedBracket, Expected::ClosedBracket) {
            Ok(()) => {},
            Err(e) => {
                return Err(e);
            },
        }
        Ok(ValueType::Array { content_type: Box::new(content_type), len: n as usize })
    }

    /// An expression whose operators all bind tighter than `precedence`.
    fn parse_expression(&mut self, precedence: Precedence) -> (r: Result<Expression, ParseError>)
        requires
            old(self).wf(),
        ensures
            final(self).wf(),
            final(self).tokens == old(self).tokens,
            expr_at(old(self).tokens@, old(self).position as int, precedence) == parsed_expr(
                r,
                final(self).position as int,
            ),
            r is Ok ==> old(self).position < final(self).position,
        decreases old(self).tokens@.len() - old(self).position, 3nat,
    {
        let ghost ts = self.tokens@;
        let start = self.position;
        let mut left = match self.peek_token() {
            None => {
                return Err(ParseError::UnexpectedEnd { expected: Expected::Expression });
            },
            Some(Token::Literal { type_: LiteralType::Identifier, value }) => {
                let value = copy_bytes(value);
                self.consume_token();
                Expression::IdentifierLiteral { value, type_: None }
            },
            Some(Token::Literal { type_: LiteralType::Number, value }) => {
                let value = copy_bytes(value);
                self.consume_token();
                match Self::parse_number_literal(value, start) {
                    Ok(e) => e,
                    Err(e) => {
                        return Err(e);
                    },
                }
            },
            Some(Token::Literal { type_: LiteralType::Char, value }) => {
                let value = copy_bytes(value);
                self.consume_token();
                Expression::CharLiteral { value }
            },
            Some(Token::Literal { type_: LiteralType::String, value }) => {
                let value = copy_bytes(value);
                self.consume_token();
                let content = Self::string_to_char_array(value);
                proof {
                    lemma_array_view(content);
                }
                Expression::Array { content }
            },
            Some(Token::Operation { operator }) => {
                let operator = *operator;
                self.consume_token();
                match self.parse_prefix_expression(operator) {
                    Ok(e) => e,
                    Err(e) => {
                        return Err(e);
                    },
                }
            },
            Some(Token::OpenParent) => {
                self.consume_token();
                match self.parse_grouped() {
                    Ok(e) => e,
                    Err(e) => {
                        return Err(e);
                    },
                }
            },
            Some(Token::OpenBracket) => {
                self.consume_token();
                match self.parse_array() {
                    Ok(e) => e,
                    Err(e) => {
                        return Err(e);
                    },
                }
            },
            Some(_) => {
                return Err(ParseError::UnexpectedToken { position: start, expected: Expected::Expression });
            },
        };
        assert(primary_at(ts, start as int) == Ok::<(ExprView, int), ParseError>((left.view(), self.position as int)));
        loop
            invariant
                self.wf(),
                self.tokens@ == ts,
                self.tokens == old(self).tokens,
                start < self.position,
                start == old(self).position,
                expr_at(ts, start as int, precedence) == climb(ts, self.position as int, precedence, left.view()),
            decreases ts.len() - self.position,
        {
            let operator_precedence = match self.peek_precedence() {
                Some(p) => p,
                None => {
                    return Ok(left);
                },
            };
            if rank_of(precedence) >= rank_of(operator_precedence) {
                return Ok(left);
            }
            match self.get_operation() {
                Some(operator) => {
                    left = match self.parse_infix_expression(left, operator) {
                        Ok(e) => e,
                        Err(e) => {
                            return Err(e);
                        },
                    };
                },
                None => {
                    self.consume_token();
                    left = match self.parse_access(left) {
                        Ok(e) => e,
                        Err(e) => {
                            return Err(e);
                        },
                    };
                },
            }
        }
    }

    /// The operand of a prefix operator, just consumed; `*` dereferences and `&`
    /// takes a reference.
    fn parse_prefix_expression(&mut self, operator: Operator) -> (r: Result<Expression, ParseError>)
        requires
            old(self).wf(),
            old(self).position >= 1,
            old(self).tokens@[old(self).position - 1] == (Token::Operation { operator }),
        ensures
            final(self).wf(),
            final(self).tokens == old(self).tokens,
            primary_at(old(self).tokens@, old(self).position - 1) == parsed_expr(r, final(self).position as int),
            r is Ok ==> old(self).position < final(self).position,
        decreases old(self).tokens@.len() - old(self).position, 4nat,
    {
        if operator != Operator::Times && operator != Operator::And {
            return Err(
                ParseError::UnexpectedToken { position: self.position - 1, expected: Expected::PrefixOperator },
            );
        }
        let right = match self.parse_expression(Precedence::Prefix) {
            Ok(e) => e,
            Err(e) => {
                return Err(e);
            },
        };
        if operator == Operator::Times {
            Ok(Expression::Deref { value: Box::new(right) })
        } else {
            Ok(Expression::Reference { reference: Box::new(right) })
        }
    }

    /// A parenthesized expression, after its `(`.
    fn parse_grouped(&mut self) -> (r: Result<Expression, ParseError>)
        requires
            old(self).wf(),
            old(self).position >= 1,
            old(self).tokens@[old(self).position - 1] == Token::OpenParent,
        ensures
            final(self).wf(),
            final(self).tokens == old(self).tokens,
            primary_at(old(self).tokens@, old(self).position - 1) == parsed_expr(r, final(self).position as int),
            r is Ok ==> old(self).position < final(self).position,
        decreases old(self).tokens@.len() - old(self).position, 4nat,
    {
        let expression = match self.parse_expression(Precedence::Lowest) {
            Ok(e) => e,
            Err(e) => {
                return Err(e);
            },
        };
        match self.expect(Token::ClosedParent, Expected::ClosedParent) {
            Ok(()) => Ok(expression),
            Err(e) => Err(e),
        }
    }

    /// An array literal, after its `[`: expressions separated by commas, then `]`.
    fn parse_array(&mut self) -> (r: Result<Expression, ParseError>)
        requires
            old(self).wf(),
            old(self).position >= 1,
            old(self).tokens@[old(self).position - 1] == Token::OpenBracket,
        ensures
            final(self).wf(),
            final(self).tokens == old(self).tokens,
            primary_at(old(self).tokens@, old(self).position - 1) == parsed_expr(r, final(self).position as int),
            r is Ok ==> old(self).position < final(self).position,
        decreases old(self).tokens@.len() - old(self).position, 4nat,
    {
        let ghost ts = self.tokens@;
        let ghost open = self.position - 1;
        let mut content: Vec<Expression> = Vec::new();
        assert(views(content@) =~= Seq::<ExprView>::empty());
        loop
            invariant
                self.wf(),
                self.tokens@ == ts,
                self.tokens == old(self).tokens,
                open == old(self).position - 1,
                open < self.position,
                primary_at(ts, open) == elements_at(ts, self.position as int, views(content@)),
            decreases ts.len() - self.position,
        {
            let ghost p = self.position as int;
            let expression = match self.parse_expression(Precedence::Lowest) {
                Ok(e) => e,
                Err(e) => {
                    return Err(e);
                },
            };
            let ghost e_view = expression.view();
            let ghost done = views(content@);
            let comma = match self.peek_token() {
                Some(Token::Comma) => true,
                _ => false,
            };
            content.push(expression);
            assert(views(content@) =~= done.push(e_view));
            if comma {
                self.consume_token();
            } else {
                return match self.expect(Token::ClosedBracket, Expected::ClosedBracket) {
                    Ok(()) => {
                        proof {
                            lemma_array_view(content);
                        }
                        Ok(Expression::Array { content })
                    },
                    Err(e) => Err(e),
                };
            }
        }
    }

    /// The right operand of an infix operator, just consumed, folded with `left`.
    fn parse_infix_expression(&mut self, left: Expression, operator: Operator) -> (r: Result<Expression, ParseError>)
        requires
            old(self).wf(),
            old(self).position >= 1,
            old(self).tokens@[old(self).position - 1] == (Token::Operation { operator }),
            operator_precedence(operator) is Some,
        ensures
            final(self).wf(),
            final(self).tokens == old(self).tokens,
            !operator.is_arithmetic() ==> r == Err::<Expression, ParseError>(
                ParseError::UnexpectedToken {
                    position: (old(self).position - 1) as usize,
                    expected: Expected::InfixOperator,
                },
            ),
            operator.is_arithmetic() ==> match expr_at(
                old(self).tokens@,
                old(self).position as int,
                operator_precedence(operator)->Some_0,
            ) {
                Ok((right, q)) => r matches Ok(e) && e.view() == (ExprView::Operation {
                    lhs: Box::new(left.view()),
                    operator,
                    rhs: Box::new(right),
                    type_: None,
                }) && final(self).position == q,
                Err(x) => r == Err::<Expression, ParseError>(x),
            },
            r is Ok ==> old(self).position < final(self).position,
        decreases old(self).tokens@.len() - old(self).position, 4nat,
    {
        let precedence = match operator {
            Operator::Plus | Operator::Minus => Precedence::Sum,
            Operator::Times | Operator::Divide => Precedence::Product,
            _ => {
                return Err(
                    ParseError::UnexpectedToken { position: self.position - 1, expected: Expected::InfixOperator },
                );
            },
        };
        let right = match self.parse_expression(precedence) {
            Ok(e) => e,
            Err(e) => {
                return Err(e);
            },
        };
        Ok(Expression::Operation { lhs: Box::new(left), operator, rhs: Box::new(right), type_: None })
    }

    /// The index of an access to `left`, after its `[`, through the `]`.
    fn parse_access(&mut self, left: Expression) -> (r: Result<Expression, ParseError>)
        requires
            old(self).wf(),
            old(self).position >= 1,
        ensures
            final(self).wf(),
            final(self).tokens == old(self).tokens,
            match expr_at(old(self).tokens@, old(self).position as int, Precedence::Lowest) {
                Ok((index, q)) => if is_token_at(old(self).tokens@, q, Token::ClosedBracket) {
                    r matches Ok(e) && e.view() == (ExprView::Access {
                        value: Box::new(left.view()),
                        index: Box::new(index),
                    }) && final(self).position == q + 1
                } else {
                    r == Err::<Expression, ParseError>(missing(old(self).tokens@, q, Expected::ClosedBracket))
                },
                Err(x) => r == Err::<Expression, ParseError>(x),
            },
            r is Ok ==> old(self).position < final(self).position,
        decreases old(self).tokens@.len() - old(self).position, 4nat,
    {
        let index = match self.parse_expression(Precedence::Lowest) {
            Ok(e) => e,
            Err(e) => {
                return Err(e);
            },
        };
        match self.expect(Token::ClosedBracket, Expected::ClosedBracket) {
            Ok(()) => Ok(Expression::Access { value: Box::new(left), index: Box::new(index) }),
            Err(e) => Err(e),
        }
    }

    /// Every statement from the current position to the end, or the first error.
    pub fn parse_statements(&mut self) -> (r: Result<Vec<Statement>, ParseError>)
        requires
            old(self).wf(),
        ensures
            final(self).tokens() == old(self).tokens(),
            match statements_from(old(self).tokens(), old(self).position()) {
                Ok(ss) => r matches Ok(v) && v@.map_values(|st: Statement| st.view()) == ss,
                Err(e) => r == Err::<Vec<Statement>, ParseError>(e),
            },
    {
        let ghost ts = self.tokens@;
        let ghost start = self.position as int;
        let mut statements: Vec<Statement> = Vec::new();
        assert(statements@.map_values(|st: Statement| st.view()) =~= Seq::<StmtView>::empty());
        assert(statements_from(ts, start) == match statements_from(ts, start) {
            Ok(rest) => Ok(Seq::<StmtView>::empty() + rest),
            Err(e) => Err::<Seq<StmtView>, ParseError>(e),
        }) by {
            if let Ok(rest) = statements_from(ts, start) {
                assert(Seq::<StmtView>::empty() + rest =~= rest);
            }
        }
        while self.position < self.tokens.len()
            invariant
                self.wf(),
                self.tokens@ == ts,
                self.tokens == old(self).tokens,
                start == old(self).position,
                statements_from(ts, start) == match statements_from(ts, self.position as int) {
                    Ok(rest) => Ok(statements@.map_values(|st: Statement| st.view()) + rest),
                    Err(e) => Err::<Seq<StmtView>, ParseError>(e),
                },
            decreases ts.len() - self.position,
        {
            let ghost p = self.position as int;
            let ghost done = statements@.map_values(|st: Statement| st.view());
            match self.parse_statement() {
                Ok(statement) => {
                    let ghost q = self.position as int;
                    let ghost sv = statement.view();
                    statements.push(statement);
                    assert(statements@.map_values(|st: Statement| st.view()) =~= done.push(sv));
                    proof {
                        if let Ok(rest) = statements_from(ts, q) {
                            assert(done.push(sv) + rest =~= done + (seq![sv] + rest));
                        }
                    }
                },
                Err(e) => {
                    return Err(e);
                },
            }
        }
        assert(statements@.map_values(|st: Statement| st.view()) + Seq::<StmtView>::empty()
            =~= statements@.map_values(|st: Statement| st.view()));
        Ok(statements)
    }

    fn parse_statement(&mut self) -> (r: Result<Statement, ParseError>)
        requires
            old(self).wf(),
        ensures
            final(self).wf(),
            final(self).tokens == old(self).tokens,
            statement_at(old(self).tokens@, old(self).position as int) == parsed_stmt(r, final(self).position as int),
            r is Ok ==> old(self).position < final(self).position,
    {
        if self.position >= self.tokens.len() {
            return Err(ParseError::UnexpectedEnd { expected: Expected::Statement });
        }
        match self.get_keyword() {
            Some(Keyword::Let) => self.parse_let(),
            Some(Keyword::Exit) => self.parse_exit(),
            Some(Keyword::Print) => self.parse_print(),
            None => self.parse_assign(),
        }
    }

    /// `IDENT ':' type '=' [expr] ';'`, after `let`.
    fn parse_let(&mut self) -> (r: Result<Statement, ParseError>)
        requires
            old(self).wf(),
        ensures
            final(self).wf(),
            final(self).tokens == old(self).tokens,
            let_at(old(self).tokens@, old(self).position as int) == parsed_stmt(r, final(self).position as int),
            r is Ok ==> old(self).position < final(self).position,
    {
        let start = self.position;
        let identifier = match self.get_literal() {
            Some((LiteralType::Identifier, value)) => value,
            _ => {
                return Err(self.missing_at(start, Expected::Identifier));
            },
        };
        match self.expect(Token::Colon, Expected::Colon) {
            Ok(()) => {},
            Err(e) => {
                return Err(e);
            },
        }
        let type_ = match self.parse_type() {
            Ok(t) => t,
            Err(e) => {
                return Err(e);
            },
        };
        match self.expect(Token::Operation { operator: Operator::Assign }, Expected::Assign) {
            Ok(()) => {},
            Err(e) => {
                return Err(e);
            },
        }
        let empty = match self.peek_token() {
            Some(Token::Semicolon) => true,
            _ => false,
        };
        if empty {
            self.consume_token();
            return Ok(Statement::Let { identifier, type_, expression: None });
        }
        let expression = match self.parse_expression(Precedence::Lowest) {
            Ok(e) => e,
            Err(e) => {
                return Err(e);
            },
        };
        match self.expect(Token::Semicolon, Expected::Semicolon) {
            Ok(()) => Ok(Statement::Let { identifier, type_, expression: Some(expression) }),
            Err(e) => Err(e),
        }
    }

    /// `'(' expr ')'`, the argument of `exit` and `print`.
    fn parse_argument(&mut self) -> (r: Result<Expression, ParseError>)
        requires
            old(self).wf(),
        ensures
            final(self).wf(),
            final(self).tokens == old(self).tokens,
            argument_at(old(self).tokens@, old(self).position as int) == parsed_expr(r, final(self).position as int),
            r is Ok ==> old(self).position < final(self).position,
    {
        match self.expect(Token::OpenParent, Expected::OpenParent) {
            Ok(()) => {},
            Err(e) => {
                return Err(e);
            },
        }
        let expression = match self.parse_expression(Precedence::Lowest) {
            Ok(e) => e,
            Err(e) => {
                return Err(e);
            },
        };
        match self.expect(Token::ClosedParent, Expected::ClosedParent) {
            Ok(()) => Ok(expression),
            Err(e) => Err(e),
        }
    }

    /// `'(' expr ')'`, after `exit`.
    fn parse_exit(&mut self) -> (r: Result<Statement, ParseError>)
        requires
            old(self).wf(),
        ensures
            final(self).wf(),
            final(self).tokens == old(self).tokens,
            match argument_at(old(self).tokens@, old(self).position as int) {
                Ok((e, q)) => r matches Ok(st) && st.view() == (StmtView::Exit { expression: e })
                    && final(self).position == q,
                Err(x) => r == Err::<Statement, ParseError>(x),
            },
            r is Ok ==> old(self).position < final(self).position,
    {
        match self.parse_argument() {
            Ok(expression) => Ok(Statement::Exit { expression }),
            Err(e) => Err(e),
        }
    }

    /// `'(' expr ')'`, after `print`.
    fn parse_print(&mut self) -> (r: Result<Statement, ParseError>)
        requires
            old(self).wf(),
        ensures
            final(self).wf(),
            final(self).tokens == old(self).tokens,
            match argument_at(old(self).tokens@, old(self).position as int) {
                Ok((e, q)) => r matches Ok(st) && st.view() == (StmtView::Print { expression: e })
                    && final(self).position == q,
                Err(x) => r == Err::<Statement, ParseError>(x),
            },
            r is Ok ==> old(self).position < final(self).position,
    {
        match self.parse_argument() {
            Ok(expression) => Ok(Statement::Print { expression }),
            Err(e) => Err(e),
        }
    }

    /// `expr '=' expr ';'`
    fn parse_assign(&mut self) -> (r: Result<Statement, ParseError>)
        requires
            old(self).wf(),
        ensures
            final(self).wf(),
            final(self).tokens == old(self).tokens,
            assign_at(old(self).tokens@, old(self).position as int) == parsed_stmt(r, final(self).position as int),
            r is Ok ==> old(self).position < final(self).position,
    {
        let assignee = match self.parse_expression(Precedence::Lowest) {
            Ok(e) => e,
            Err(e) => {
                return Err(e);
            },
        };
        match self.expect(Token::Operation { operator: Operator::Assign }, Expected::Assign) {
            Ok(()) => {},
            Err(e) => {
                return Err(e);
            },
        }
        let expression = match self.parse_expression(Precedence::Lowest) {
            Ok(e) => e,
            Err(e) => {
                return Err(e);
            },
        };
        match self.expect(Token::Semicolon, Expected::Semicolon) {
            Ok(()) => Ok(Statement::Assign { assignee, expression }),
            Err(e) => Err(e),
        }
    }
}

} // verus!
