use vstd::prelude::*;
use vstd::string::StringExecFns;
use crate::token::Operator;

verus! {

/// The value types of the language.
#[derive(Debug)]
pub enum ValueType {
    U64,
    U32,
    U16,
    U8,
    Char,
    Pointer { points_to: Box<ValueType> },
    Array { content_type: Box<ValueType>, len: usize },
}

/// Whether a cast may be inserted on its own or must be asked for.
#[derive(Debug, Clone, Copy, PartialEq, Eq, Structural)]
pub enum CastVariant {
    Explicit,
    Implicit,
}

/// One entry of an operator's table: a right-hand operand type and the type
/// of the result.
#[derive(Debug)]
pub struct OperationResult {
    pub input: ValueType,
    pub output: ValueType,
}

impl PartialEq for ValueType {
    fn eq(&self, other: &ValueType) -> (r: bool)
        decreases self,
    {
        match (self, other) {
            (ValueType::U64, ValueType::U64) => true,
            (ValueType::U32, ValueType::U32) => true,
            (ValueType::U16, ValueType::U16) => true,
            (ValueType::U8, ValueType::U8) => true,
            (ValueType::Char, ValueType::Char) => true,
            (ValueType::Pointer { points_to: a }, ValueType::Pointer { points_to: b }) => (**a).eq(&**b),
            (
                ValueType::Array { content_type: a, len: m },
                ValueType::Array { content_type: b, len: n },
            ) => *m == *n && (**a).eq(&**b),
            _ => false,
        }
    }
}

impl vstd::std_specs::cmp::PartialEqSpecImpl for ValueType {
    open spec fn obeys_eq_spec() -> bool {
        true
    }

    open spec fn eq_spec(&self, other: &ValueType) -> bool {
        *self == *other
    }
}

impl Eq for ValueType {}

impl Clone for ValueType {
    fn clone(&self) -> (r: ValueType)
        ensures
            r == *self,
        decreases self,
    {
        match self {
            ValueType::U64 => ValueType::U64,
            ValueType::U32 => ValueType::U32,
            ValueType::U16 => ValueType::U16,
            ValueType::U8 => ValueType::U8,
            ValueType::Char => ValueType::Char,
            ValueType::Pointer { points_to } => ValueType::Pointer {
                points_to: Box::new((**points_to).clone()),
            },
            ValueType::Array { content_type, len } => ValueType::Array {
                content_type: Box::new((**content_type).clone()),
                len: *len,
            },
        }
    }
}

impl ValueType {
    /// One of the unsigned integer types.
    pub open spec fn is_unsigned(self) -> bool {
        match self {
            ValueType::U8 | ValueType::U16 | ValueType::U32 | ValueType::U64 => true,
            _ => false,
        }
    }

    /// Bit width of an unsigned integer type.
    pub open spec fn width(self) -> nat {
        match self {
            ValueType::U8 => 8,
            ValueType::U16 => 16,
            ValueType::U32 => 32,
            ValueType::U64 => 64,
            _ => 0,
        }
    }

    /// The cast table: how a value of type `self` may be cast to `to`, if at all.
    /// Identity is an explicit no-op; among unsigned integers widening is
    /// implicit and everything else explicit; a char and an unsigned integer
    /// convert into each other explicitly; nothing else converts.
    pub open spec fn cast_variant(self, to: ValueType) -> Option<CastVariant> {
        if self == to {
            Some(CastVariant::Explicit)
        } else if self.is_unsigned() && to.is_unsigned() {
            if self.width() < to.width() {
                Some(CastVariant::Implicit)
            } else {
                Some(CastVariant::Explicit)
            }
        } else if (self.is_unsigned() && to == ValueType::Char) || (self == ValueType::Char
            && to.is_unsigned()) {
            Some(CastVariant::Explicit)
        } else {
            None
        }
    }

    /// The operator table: the type of `self op rhs`, if the operation is
    /// defined without a cast. Only `+ - * /` on two operands of one unsigned
    /// width are, and they keep that width.
    pub open spec fn operation_result(self, operator: Operator, rhs: ValueType) -> Option<ValueType> {
        if self.is_unsigned() && operator.is_arithmetic() && rhs == self {
            Some(self)
        } else {
            None
        }
    }

    pub open spec fn is_pointer_type(self) -> bool {
        self is Pointer
    }

    /// Every destination that a value of this type may be cast to, each once,
    /// with the kind of cast.
    pub fn get_casts(&self) -> (r: Vec<(ValueType, CastVariant)>)
        ensures
            forall|i: int| 0 <= i < r.len() ==> self.cast_variant(#[trigger] r@[i].0) == Some(r@[i].1),
            forall|t: ValueType| #[trigger] self.cast_variant(t) is Some ==> exists|i: int|
                0 <= i < r.len() && r@[i].0 == t,
            forall|i: int, j: int| 0 <= i < j < r.len() ==> r@[i].0 != r@[j].0,
    {
        match self {
            ValueType::U8 | ValueType::U16 | ValueType::U32 | ValueType::U64 => {
                let w: u8 = unsigned_width(self);
                let r = vec![
                    (ValueType::U8, if w < 8 { CastVariant::Implicit } else { CastVariant::Explicit }),
                    (ValueType::U16, if w < 16 { CastVariant::Implicit } else { CastVariant::Explicit }),
                    (ValueType::U32, if w < 32 { CastVariant::Implicit } else { CastVariant::Explicit }),
                    (ValueType::U64, if w < 64 { CastVariant::Implicit } else { CastVariant::Explicit }),
                    (ValueType::Char, CastVariant::Explicit),
                ];
                assert forall|t: ValueType| #[trigger] self.cast_variant(t) is Some implies exists|i: int|
                    0 <= i < r.len() && r@[i].0 == t by {
                    match t {
                        ValueType::U8 => assert(r@[0].0 == t),
                        ValueType::U16 => assert(r@[1].0 == t),
                        ValueType::U32 => assert(r@[2].0 == t),
                        ValueType::U64 => assert(r@[3].0 == t),
                        ValueType::Char => assert(r@[4].0 == t),
                        _ => {},
                    }
                }
                r
            },
            ValueType::Char => {
                let r = vec![
                    (ValueType::Char, CastVariant::Explicit),
                    (ValueType::U8, CastVariant::Explicit),
                    (ValueType::U16, CastVariant::Explicit),
                    (ValueType::U32, CastVariant::Explicit),
                    (ValueType::U64, CastVariant::Explicit),
                ];
                assert forall|t: ValueType| #[trigger] self.cast_variant(t) is Some implies exists|i: int|
                    0 <= i < r.len() && r@[i].0 == t by {
                    match t {
                        ValueType::Char => assert(r@[0].0 == t),
                        ValueType::U8 => assert(r@[1].0 == t),
                        ValueType::U16 => assert(r@[2].0 == t),
                        ValueType::U32 => assert(r@[3].0 == t),
                        ValueType::U64 => assert(r@[4].0 == t),
                        _ => {},
                    }
                }
                r
            },
            ValueType::Pointer { .. } | ValueType::Array { .. } => {
                let r = vec![(self.clone(), CastVariant::Explicit)];
                assert(r@[0].0 == *self);
                r
            },
        }
    }

    /// The cast table's entry for casting `self` to `to`.
    pub fn cast_to(&self, to: &ValueType) -> (r: Option<CastVariant>)
        ensures
            r == self.cast_variant(*to),
    {
        if *self == *to {
            return Some(CastVariant::Explicit);
        }
        if is_unsigned_type(self) && is_unsigned_type(to) {
            if unsigned_width(self) < unsigned_width(to) {
                Some(CastVariant::Implicit)
            } else {
                Some(CastVariant::Explicit)
            }
        } else if (is_unsigned_type(self) && matches!(to, ValueType::Char)) || (matches!(self, ValueType::Char)
            && is_unsigned_type(to)) {
            Some(CastVariant::Explicit)
        } else {
            None
        }
    }

    /// The operator's table for a left operand of this type: each right operand
    /// type for which `self operator rhs` is defined, with the result type.
    pub fn get_operation_results(&self, operator: &Operator) -> (r: Vec<OperationResult>)
        ensures
            (self.is_unsigned() && operator.is_arithmetic()) ==> r@ == seq![
                OperationResult { input: *self, output: *self },
            ],
            !(self.is_unsigned() && operator.is_arithmetic()) ==> r@ == Seq::<OperationResult>::empty(),
    {
        let arithmetic = match operator {
            Operator::Plus | Operator::Minus | Operator::Times | Operator::Divide => true,
            _ => false,
        };
        if is_unsigned_type(self) && arithmetic {
            let r = vec![OperationResult { input: self.clone(), output: self.clone() }];
            assert(r@ =~= seq![OperationResult { input: *self, output: *self }]);
            r
        } else {
            let r: Vec<OperationResult> = Vec::new();
            assert(r@ =~= Seq::<OperationResult>::empty());
            r
        }
    }

    /// The type of `self operator rhs`, if defined without a cast.
    pub fn operation_with(&self, operator: &Operator, rhs: &ValueType) -> (r: Option<ValueType>)
        ensures
            r == self.operation_result(*operator, *rhs),
    {
        let arithmetic = match operator {
            Operator::Plus | Operator::Minus | Operator::Times | Operator::Divide => true,
            _ => false,
        };
        if is_unsigned_type(self) && arithmetic && *rhs == *self {
            Some(self.clone())
        } else {
            None
        }
    }

    pub fn is_pointer(&self) -> (r: bool)
        ensures
            r == self.is_pointer_type(),
    {
        match self {
            ValueType::Pointer { .. } => true,
            ValueType::U64 | ValueType::U32 | ValueType::U16 | ValueType::U8 | ValueType::Char
            | ValueType::Array { .. } => false,
        }
    }
}

pub open spec fn digit_text(d: nat) -> Seq<char> {
    if d == 0 {
        "0"@
    } else if d == 1 {
        "1"@
    } else if d == 2 {
        "2"@
    } else if d == 3 {
        "3"@
    } else if d == 4 {
        "4"@
    } else if d == 5 {
        "5"@
    } else if d == 6 {
        "6"@
    } else if d == 7 {
        "7"@
    } else if d == 8 {
        "8"@
    } else {
        "9"@
    }
}

/// `n` in decimal.
pub open spec fn decimal_text(n: nat) -> Seq<char>
    decreases n,
{
    if n < 10 {
        digit_text(n)
    } else {
        decimal_text(n / 10) + digit_text(n % 10)
    }
}

/// How a type is written: `u8`, `&u8`, `[char, 4]`.
pub open spec fn type_text(t: ValueType) -> Seq<char>
    decreases t,
{
    match t {
        ValueType::U64 => "u64"@,
        ValueType::U32 => "u32"@,
        ValueType::U16 => "u16"@,
        ValueType::U8 => "u8"@,
        ValueType::Char => "char"@,
        ValueType::Pointer { points_to } => "&"@ + type_text(*points_to),
        ValueType::Array { content_type, len } => "["@ + type_text(*content_type) + ", "@ + decimal_text(
            len as nat,
        ) + "]"@,
    }
}

fn digit_str(d: usize) -> (r: &'static str)
    requires
        d < 10,
    ensures
        r@ == digit_text(d as nat),
{
    if d == 0 {
        "0"
    } else if d == 1 {
        "1"
    } else if d == 2 {
        "2"
    } else if d == 3 {
        "3"
    } else if d == 4 {
        "4"
    } else if d == 5 {
        "5"
    } else if d == 6 {
        "6"
    } else if d == 7 {
        "7"
    } else if d == 8 {
        "8"
    } else {
        "9"
    }
}

fn decimal_string(n: usize) -> (r: String)
    ensures
        r@ == decimal_text(n as nat),
    decreases n,
{
    if n < 10 {
        String::from_str(digit_str(n))
    } else {
        let mut s = decimal_string(n / 10);
        s.append(digit_str(n % 10));
        s
    }
}

impl ValueType {
    /// How the type is written: `u8`, `&u8`, `[char, 4]`.
    pub fn to_text(&self) -> (r: String)
        ensures
            r@ == type_text(*self),
        decreases self,
    {
        match self {
            ValueType::U64 => String::from_str("u64"),
            ValueType::U32 => String::from_str("u32"),
            ValueType::U16 => String::from_str("u16"),
            ValueType::U8 => String::from_str("u8"),
            ValueType::Char => String::from_str("char"),
            ValueType::Pointer { points_to } => {
                let mut s = String::from_str("&");
                s.append(points_to.to_text().as_str());
                s
            },
            ValueType::Array { content_type, len } => {
                let mut s = String::from_str("[");
                s.append(content_type.to_text().as_str());
                s.append(", ");
                s.append(decimal_string(*len).as_str());
                s.append("]");
                s
            },
        }
    }
}

fn is_unsigned_type(t: &ValueType) -> (r: bool)
    ensures
        r == t.is_unsigned(),
{
    match t {
        ValueType::U8 | ValueType::U16 | ValueType::U32 | ValueType::U64 => true,
        _ => false,
    }
}

fn unsigned_width(t: &ValueType) -> (r: u8)
    ensures
        r == t.width(),
{
    match t {
        ValueType::U8 => 8,
        ValueType::U16 => 16,
        ValueType::U32 => 32,
        ValueType::U64 => 64,
        _ => 0,
    }
}

} // verus!
