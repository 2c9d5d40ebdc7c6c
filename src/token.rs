use vstd::prelude::*;
use vstd::string::StringExecFns;

verus! {

/// Raw, undecoded bytes of a literal.
pub type Literal = Vec<u8>;

/// The text that a byte sequence stands for once decoded as UTF-8, with invalid
/// sequences replaced.
pub uninterp spec fn lossy_text(b: Seq<u8>) -> Seq<char>;

/// Every byte is ASCII.
pub open spec fn is_ascii_bytes(b: Seq<u8>) -> bool {
    forall|i: int| 0 <= i < b.len() ==> b[i] < 128
}

/// Each byte read as the character with the same code.
pub open spec fn bytes_as_chars(b: Seq<u8>) -> Seq<char> {
    b.map_values(|x: u8| x as char)
}

/// Relies on `String::from_utf8_lossy`: the text depends on the bytes alone, and
/// bytes that are all ASCII are valid UTF-8, each decoding to its own character.
#[verifier::external_body]
fn utf8_lossy(b: &[u8]) -> (r: String)
    ensures
        r@ == lossy_text(b@),
        is_ascii_bytes(b@) ==> r@ == bytes_as_chars(b@),
{
    String::from_utf8_lossy(b).into_owned()
}

/// The literal's bytes as text.
pub fn literal_to_string(literal: &Literal) -> (r: String)
    ensures
        r@ == lossy_text(literal@),
        is_ascii_bytes(literal@) ==> r@ == bytes_as_chars(literal@),
{
    utf8_lossy(literal.as_slice())
}

/// A copy of a byte sequence.
pub fn copy_bytes(b: &Vec<u8>) -> (r: Vec<u8>)
    ensures
        r@ == b@,
{
    let mut r: Vec<u8> = Vec::new();
    let mut i: usize = 0;
    while i < b.len()
        invariant
            i <= b.len(),
            r@ == b@.subrange(0, i as int),
        decreases b.len() - i,
    {
        r.push(b[i]);
        i = i + 1;
    }
    assert(r@ =~= b@);
    r
}

/// Whether two byte sequences are equal.
pub fn bytes_equal(a: &Vec<u8>, b: &Vec<u8>) -> (r: bool)
    ensures
        r == (a@ == b@),
{
    if a.len() != b.len() {
        return false;
    }
    let mut i: usize = 0;
    while i < a.len()
        invariant
            a.len() == b.len(),
            i <= a.len(),
            a@.subrange(0, i as int) == b@.subrange(0, i as int),
        decreases a.len() - i,
    {
        if a[i] != b[i] {
            assert(a@[i as int] != b@[i as int]);
            return false;
        }
        assert(a@.subrange(0, i + 1) == a@.subrange(0, i as int).push(a@[i as int]));
        assert(b@.subrange(0, i + 1) == b@.subrange(0, i as int).push(b@[i as int]));
        i = i + 1;
    }
    assert(a@ =~= a@.subrange(0, a.len() as int));
    assert(b@ =~= b@.subrange(0, b.len() as int));
    true
}

#[derive(Debug, Clone)]
#[allow(inconsistent_fields)]
pub enum Token {
    EOF,
    Ignored,
    Keyword { keyword: Keyword },
    Literal { type_: LiteralType, value: Literal },
    Type { type_: TypeType },
    Operation { operator: Operator },
    Comma,
    Colon,
    Semicolon,
    OpenParent,
    ClosedParent,
    OpenBracket,
    ClosedBracket,
}

#[derive(Debug, Clone, Copy, PartialEq, Eq, Structural)]
pub enum Keyword {
    Let,
    Exit,
    Print,
}

#[derive(Debug, Clone, Copy, PartialEq, Eq, Structural)]
pub enum LiteralType {
    String,
    Char,
    Number,
    Identifier,
}

#[derive(Debug, Clone, Copy, PartialEq, Eq, Structural)]
pub enum TypeType {
    U64,
    U32,
    U16,
    U8,
    Char,
}

#[derive(Debug, Clone, Copy, PartialEq, Eq, Structural)]
pub enum Operator {
    Plus,
    Minus,
    Times,
    Divide,
    And,
    Assign,
}

impl Operator {
    /// `+ - * /`: the operators that combine two values.
    pub open spec fn is_arithmetic(self) -> bool {
        match self {
            Operator::Plus | Operator::Minus | Operator::Times | Operator::Divide => true,
            _ => false,
        }
    }
}

impl Token {
    /// Same variant and same contents, literal payloads compared by their bytes.
    pub open spec fn same_as(self, other: Token) -> bool {
        match (self, other) {
            (Token::Literal { type_: a, value: v }, Token::Literal { type_: b, value: w }) => a == b
                && v@ == w@,
            (Token::Literal { .. }, _) => false,
            _ => self == other,
        }
    }
}

impl PartialEq for Token {
    fn eq(&self, other: &Token) -> (r: bool) {
        match (self, other) {
            (Token::EOF, Token::EOF) => true,
            (Token::Ignored, Token::Ignored) => true,
            (Token::Keyword { keyword: a }, Token::Keyword { keyword: b }) => *a == *b,
            (Token::Literal { type_: a, value: v }, Token::Literal { type_: b, value: w }) => {
                *a == *b && bytes_equal(v, w)
            },
            (Token::Type { type_: a }, Token::Type { type_: b }) => *a == *b,
            (Token::Operation { operator: a }, Token::Operation { operator: b }) => *a == *b,
            (Token::Comma, Token::Comma) => true,
            (Token::Colon, Token::Colon) => true,
            (Token::Semicolon, Token::Semicolon) => true,
            (Token::OpenParent, Token::OpenParent) => true,
            (Token::ClosedParent, Token::ClosedParent) => true,
            (Token::OpenBracket, Token::OpenBracket) => true,
            (Token::ClosedBracket, Token::ClosedBracket) => true,
            _ => false,
        }
    }
}

impl vstd::std_specs::cmp::PartialEqSpecImpl for Token {
    open spec fn obeys_eq_spec() -> bool {
        true
    }

    open spec fn eq_spec(&self, other: &Token) -> bool {
        self.same_as(*other)
    }
}

impl Eq for Token {}

pub open spec fn keyword_text(k: Keyword) -> Seq<char> {
    match k {
        Keyword::Let => "let"@,
        Keyword::Exit => "exit"@,
        Keyword::Print => "print"@,
    }
}

pub open spec fn literal_type_text(t: LiteralType) -> Seq<char> {
    match t {
        LiteralType::String => "string"@,
        LiteralType::Char => "char"@,
        LiteralType::Number => "number"@,
        LiteralType::Identifier => "ident"@,
    }
}

pub open spec fn type_name_text(t: TypeType) -> Seq<char> {
    match t {
        TypeType::U64 => "u64"@,
        TypeType::U32 => "u32"@,
        TypeType::U16 => "u16"@,
        TypeType::U8 => "u8"@,
        TypeType::Char => "char"@,
    }
}

pub open spec fn operator_text(o: Operator) -> Seq<char> {
    match o {
        Operator::Plus => "+"@,
        Operator::Minus => "-"@,
        Operator::Times => "*"@,
        Operator::Divide => "/"@,
        Operator::And => "&"@,
        Operator::Assign => "="@,
    }
}

/// How a token is written in diagnostics.
pub open spec fn token_text(t: Token) -> Seq<char> {
    match t {
        Token::EOF => "eof"@,
        Token::Ignored => Seq::empty(),
        Token::Keyword { keyword } => "keyword "@ + keyword_text(keyword),
        Token::Literal { type_, value } => literal_type_text(type_) + " "@ + lossy_text(value@),
        Token::Type { type_ } => type_name_text(type_),
        Token::Operation { operator } => operator_text(operator),
        Token::Comma => ","@,
        Token::Colon => ":"@,
        Token::Semicolon => ";"@,
        Token::OpenParent => "("@,
        Token::ClosedParent => ")"@,
        Token::OpenBracket => "["@,
        Token::ClosedBracket => "]"@,
    }
}

impl Keyword {
    pub fn to_text(&self) -> (r: String)
        ensures
            r@ == keyword_text(*self),
    {
        match self {
            Keyword::Let => String::from_str("let"),
            Keyword::Exit => String::from_str("exit"),
            Keyword::Print => String::from_str("print"),
        }
    }
}

impl LiteralType {
    pub fn to_text(&self) -> (r: String)
        ensures
            r@ == literal_type_text(*self),
    {
        match self {
            LiteralType::String => String::from_str("string"),
            LiteralType::Char => String::from_str("char"),
            LiteralType::Number => String::from_str("number"),
            LiteralType::Identifier => String::from_str("ident"),
        }
    }
}

impl TypeType {
    pub fn to_text(&self) -> (r: String)
        ensures
            r@ == type_name_text(*self),
    {
        match self {
            TypeType::U64 => String::from_str("u64"),
            TypeType::U32 => String::from_str("u32"),
            TypeType::U16 => String::from_str("u16"),
            TypeType::U8 => String::from_str("u8"),
            TypeType::Char => String::from_str("char"),
        }
    }
}

impl Operator {
    pub fn to_text(&self) -> (r: String)
        ensures
            r@ == operator_text(*self),
    {
        match self {
            Operator::Plus => String::from_str("+"),
            Operator::Minus => String::from_str("-"),
            Operator::Times => String::from_str("*"),
            Operator::Divide => String::from_str("/"),
            Operator::And => String::from_str("&"),
            Operator::Assign => String::from_str("="),
        }
    }
}

impl Token {
    /// How the token is written in diagnostics.
    pub fn to_text(&self) -> (r: String)
        ensures
            r@ == token_text(*self),
    {
        match self {
            Token::EOF => String::from_str("eof"),
            Token::Ignored => String::new(),
            Token::Keyword { keyword } => {
                let mut s = String::from_str("keyword ");
                s.append(keyword.to_text().as_str());
                s
            },
            Token::Literal { type_, value } => {
                let mut s = type_.to_text();
                s.append(" ");
                s.append(literal_to_string(value).as_str());
                s
            },
            Token::Type { type_ } => type_.to_text(),
            Token::Operation { operator } => operator.to_text(),
            Token::Comma => String::from_str(","),
            Token::Colon => String::from_str(":"),
            Token::Semicolon => String::from_str(";"),
            Token::OpenParent => String::from_str("("),
            Token::ClosedParent => String::from_str(")"),
            Token::OpenBracket => String::from_str("["),
            Token::ClosedBracket => String::from_str("]"),
        }
    }
}

} // verus!
