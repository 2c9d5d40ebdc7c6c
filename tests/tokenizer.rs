use compiler_in_rust::token::{literal_to_string, Keyword, LiteralType, Operator, Token, TypeType};
use compiler_in_rust::tokenizer::{LexError, Tokenizer};

fn lex(source: &str) -> Result<Vec<Token>, LexError> {
    Tokenizer::new(source.chars().collect()).tokenize()
}

fn literal(type_: LiteralType, text: &str) -> Token {
    Token::Literal { type_, value: text.as_bytes().to_vec() }
}

#[test]
fn let_statement_tokens() {
    let tokens = lex("let a: u64 = 1 + 2;").unwrap();
    assert_eq!(
        tokens,
        vec![
            Token::Keyword { keyword: Keyword::Let },
            literal(LiteralType::Identifier, "a"),
            Token::Colon,
            Token::Type { type_: TypeType::U64 },
            Token::Operation { operator: Operator::Assign },
            literal(LiteralType::Number, "1"),
            Token::Operation { operator: Operator::Plus },
            literal(LiteralType::Number, "2"),
            Token::Semicolon,
        ]
    );
}

#[test]
fn every_symbol_is_one_token() {
    let tokens = lex(",:;+-*/&=()[]").unwrap();
    assert_eq!(
        tokens,
        vec![
            Token::Comma,
            Token::Colon,
            Token::Semicolon,
            Token::Operation { operator: Operator::Plus },
            Token::Operation { operator: Operator::Minus },
            Token::Operation { operator: Operator::Times },
            Token::Operation { operator: Operator::Divide },
            Token::Operation { operator: Operator::And },
            Token::Operation { operator: Operator::Assign },
            Token::OpenParent,
            Token::ClosedParent,
            Token::OpenBracket,
            Token::ClosedBracket,
        ]
    );
}

#[test]
fn words_are_classified() {
    let tokens = lex("exit print let u8 u16 u32 u64 char chars _x9 u128").unwrap();
    assert_eq!(
        tokens,
        vec![
            Token::Keyword { keyword: Keyword::Exit },
            Token::Keyword { keyword: Keyword::Print },
            Token::Keyword { keyword: Keyword::Let },
            Token::Type { type_: TypeType::U8 },
            Token::Type { type_: TypeType::U16 },
            Token::Type { type_: TypeType::U32 },
            Token::Type { type_: TypeType::U64 },
            Token::Type { type_: TypeType::Char },
            literal(LiteralType::Identifier, "chars"),
            literal(LiteralType::Identifier, "_x9"),
            literal(LiteralType::Identifier, "u128"),
        ]
    );
}

#[test]
fn whitespace_is_skipped() {
    assert_eq!(lex("  \n\r ").unwrap(), vec![]);
    assert_eq!(lex("").unwrap(), vec![]);
    assert_eq!(
        lex("\n 12\r\n34 ").unwrap(),
        vec![literal(LiteralType::Number, "12"), literal(LiteralType::Number, "34")]
    );
}

#[test]
fn digits_then_letters_split() {
    assert_eq!(
        lex("12ab").unwrap(),
        vec![literal(LiteralType::Number, "12"), literal(LiteralType::Identifier, "ab")]
    );
}

#[test]
fn quoted_payloads_are_the_source_between_delimiters() {
    let tokens = lex("'x' \"a b\\n\" '' \"\"").unwrap();
    assert_eq!(
        tokens,
        vec![
            literal(LiteralType::Char, "x"),
            literal(LiteralType::String, "a b\\n"),
            literal(LiteralType::Char, ""),
            literal(LiteralType::String, ""),
        ]
    );
}

#[test]
fn unknown_character_fails() {
    assert_eq!(lex("let a = 1 % 2;"), Err(LexError::UnknownCharacter { position: 10, character: '%' }));
    assert_eq!(lex("\t"), Err(LexError::UnknownCharacter { position: 0, character: '\t' }));
}

#[test]
fn unterminated_literals_fail() {
    assert_eq!(lex("print('a"), Err(LexError::Unterminated { position: 6 }));
    assert_eq!(lex("\"abc"), Err(LexError::Unterminated { position: 0 }));
}

#[test]
fn non_ascii_inside_literal_fails() {
    assert_eq!(lex("'é'"), Err(LexError::UnknownCharacter { position: 1, character: 'é' }));
}

#[test]
fn literal_text() {
    assert_eq!(literal_to_string(&b"abc".to_vec()), "abc");
    assert_eq!(literal_to_string(&vec![]), "");
    assert_eq!(literal_to_string(&vec![0x61, 0xff, 0x62]), "a\u{fffd}b");
}

#[test]
fn token_text() {
    assert_eq!(Token::Keyword { keyword: Keyword::Print }.to_text(), "keyword print");
    assert_eq!(literal(LiteralType::Identifier, "abc").to_text(), "ident abc");
    assert_eq!(literal(LiteralType::String, "a b").to_text(), "string a b");
    assert_eq!(literal(LiteralType::Number, "42").to_text(), "number 42");
    assert_eq!(literal(LiteralType::Char, "x").to_text(), "char x");
    assert_eq!(Token::Type { type_: TypeType::U16 }.to_text(), "u16");
    assert_eq!(Token::Operation { operator: Operator::Divide }.to_text(), "/");
    assert_eq!(Token::EOF.to_text(), "eof");
    assert_eq!(Token::Ignored.to_text(), "");
    assert_eq!(Token::ClosedBracket.to_text(), "]");
    assert_eq!(Token::Semicolon.to_text(), ";");
}
