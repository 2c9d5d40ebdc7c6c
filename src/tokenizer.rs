use vstd::prelude::*;
use crate::token::{Keyword, Literal, LiteralType, Operator, Token, TypeType, bytes_as_chars};

verus! {

/// Why a source text could not be tokenized.
#[derive(Debug, Clone, Copy, PartialEq, Eq, Structural)]
pub enum LexError {
    /// A character that starts no token, or a non-ASCII one inside a quoted literal.
    UnknownCharacter { position: usize, character: char },
    /// A char or string literal, opened at `position`, that the input ends inside.
    Unterminated { position: usize },
}

/// The characters that a run of input may be made of.
#[derive(Debug, Clone, Copy, PartialEq, Eq, Structural)]
pub enum CharClass {
    /// Letters, digits and `_`.
    Identifier,
    /// Decimal digits.
    Digit,
    /// ASCII characters other than the delimiter.
    Quoted { delimiter: char },
}

pub open spec fn is_ignorable(c: char) -> bool {
    c == ' ' || c == '\n' || c == '\r'
}

pub open spec fn is_letter(c: char) -> bool {
    ('a' <= c && c <= 'z') || ('A' <= c && c <= 'Z')
}

pub open spec fn is_digit(c: char) -> bool {
    '0' <= c && c <= '9'
}

pub open spec fn is_identifier_start(c: char) -> bool {
    is_letter(c) || c == '_'
}

pub open spec fn in_class(c: char, class: CharClass) -> bool {
    match class {
        CharClass::Identifier => is_letter(c) || is_digit(c) || c == '_',
        CharClass::Digit => is_digit(c),
        CharClass::Quoted { delimiter } => (c as u32) < 128 && c != delimiter,
    }
}

/// The token that a one-character symbol stands for, if it is one.
pub open spec fn symbol_token(c: char) -> Option<Token> {
    if c == ',' {
        Some(Token::Comma)
    } else if c == ':' {
        Some(Token::Colon)
    } else if c == ';' {
        Some(Token::Semicolon)
    } else if c == '+' {
        Some(Token::Operation { operator: Operator::Plus })
    } else if c == '-' {
        Some(Token::Operation { operator: Operator::Minus })
    } else if c == '*' {
        Some(Token::Operation { operator: Operator::Times })
    } else if c == '/' {
        Some(Token::Operation { operator: Operator::Divide })
    } else if c == '&' {
        Some(Token::Operation { operator: Operator::And })
    } else if c == '=' {
        Some(Token::Operation { operator: Operator::Assign })
    } else if c == '(' {
        Some(Token::OpenParent)
    } else if c == ')' {
        Some(Token::ClosedParent)
    } else if c == '[' {
        Some(Token::OpenBracket)
    } else if c == ']' {
        Some(Token::ClosedBracket)
    } else {
        None
    }
}

/// The keyword or type name that a word is, if any.
pub open spec fn reserved_word(w: Seq<char>) -> Option<Token> {
    if w == seq!['l', 'e', 't'] {
        Some(Token::Keyword { keyword: Keyword::Let })
    } else if w == seq!['e', 'x', 'i', 't'] {
        Some(Token::Keyword { keyword: Keyword::Exit })
    } else if w == seq!['p', 'r', 'i', 'n', 't'] {
        Some(Token::Keyword { keyword: Keyword::Print })
    } else if w == seq!['u', '6', '4'] {
        Some(Token::Type { type_: TypeType::U64 })
    } else if w == seq!['u', '3', '2'] {
        Some(Token::Type { type_: TypeType::U32 })
    } else if w == seq!['u', '1', '6'] {
        Some(Token::Type { type_: TypeType::U16 })
    } else if w == seq!['u', '8'] {
        Some(Token::Type { type_: TypeType::U8 })
    } else if w == seq!['c', 'h', 'a', 'r'] {
        Some(Token::Type { type_: TypeType::Char })
    } else {
        None
    }
}

/// The end of the longest run of `class` characters starting at `i`.
pub open spec fn run_end(s: Seq<char>, i: int, class: CharClass) -> int
    decreases s.len() - i,
{
    if 0 <= i < s.len() && in_class(s[i], class) {
        run_end(s, i + 1, class)
    } else {
        i
    }
}

/// The first position at or after `i` that holds no ignorable character.
pub open spec fn skip_ignorable(s: Seq<char>, i: int) -> int
    decreases s.len() - i,
{
    if 0 <= i < s.len() && is_ignorable(s[i]) {
        skip_ignorable(s, i + 1)
    } else {
        i
    }
}

pub proof fn lemma_run_end(s: Seq<char>, i: int, class: CharClass)
    requires
        0 <= i <= s.len(),
    ensures
        i <= run_end(s, i, class) <= s.len(),
        forall|k: int| i <= k < run_end(s, i, class) ==> in_class(#[trigger] s[k], class),
        run_end(s, i, class) < s.len() ==> !in_class(s[run_end(s, i, class)], class),
    decreases s.len() - i,
{
    if i < s.len() && in_class(s[i], class) {
        lemma_run_end(s, i + 1, class);
    }
}

pub proof fn lemma_skip_ignorable(s: Seq<char>, i: int)
    requires
        0 <= i <= s.len(),
    ensures
        i <= skip_ignorable(s, i) <= s.len(),
        skip_ignorable(s, i) < s.len() ==> !is_ignorable(s[skip_ignorable(s, i)]),
    decreases s.len() - i,
{
    if i < s.len() && is_ignorable(s[i]) {
        lemma_skip_ignorable(s, i + 1);
    }
}

/// Where the token that starts at `i` (a character that is not ignorable) ends,
/// or why no token starts there.
pub open spec fn token_end(s: Seq<char>, i: int) -> Result<int, LexError> {
    let c = s[i];
    if symbol_token(c) is Some {
        Ok(i + 1)
    } else if is_identifier_start(c) {
        Ok(run_end(s, i, CharClass::Identifier))
    } else if is_digit(c) {
        Ok(run_end(s, i, CharClass::Digit))
    } else if c == '\'' || c == '"' {
        let j = run_end(s, i + 1, CharClass::Quoted { delimiter: c });
        if j >= s.len() {
            Err(LexError::Unterminated { position: i as usize })
        } else if s[j] == c {
            Ok(j + 1)
        } else {
            Err(LexError::UnknownCharacter { position: j as usize, character: s[j] })
        }
    } else {
        Err(LexError::UnknownCharacter { position: i as usize, character: c })
    }
}

pub proof fn lemma_token_end(s: Seq<char>, i: int)
    requires
        0 <= i < s.len(),
    ensures
        token_end(s, i) matches Ok(j) ==> i < j <= s.len(),
{
    let c = s[i];
    if is_identifier_start(c) {
        lemma_run_end(s, i, CharClass::Identifier);
        assert(in_class(s[i], CharClass::Identifier));
        lemma_run_end(s, i + 1, CharClass::Identifier);
    } else if is_digit(c) {
        lemma_run_end(s, i + 1, CharClass::Digit);
    } else {
        lemma_run_end(s, i + 1, CharClass::Quoted { delimiter: c });
    }
}

/// The spans `(start, end)` of the tokens of `s` from position `i` on, or the
/// first reason why tokenizing fails.
pub open spec fn lex_spans(s: Seq<char>, i: int) -> Result<Seq<(int, int)>, LexError>
    decreases s.len() - i,
{
    if i < 0 || i > s.len() {
        Ok(Seq::empty())
    } else {
        let p = skip_ignorable(s, i);
        if p >= s.len() {
            Ok(Seq::empty())
        } else {
            match token_end(s, p) {
                Ok(j) => {
                    proof {
                        lemma_skip_ignorable(s, i);
                        lemma_token_end(s, p);
                    }
                    match lex_spans(s, j) {
                        Ok(rest) => Ok(seq![(p, j)] + rest),
                        Err(e) => Err(e),
                    }
                },
                Err(e) => Err(e),
            }
        }
    }
}

/// `t` is the token that the characters `s[a..b]` spell; a literal's payload is
/// the characters between its delimiters, if it has any.
pub open spec fn spells(t: Token, s: Seq<char>, a: int, b: int) -> bool {
    let c = s[a];
    if symbol_token(c) is Some {
        b == a + 1 && symbol_token(c) == Some(t)
    } else if is_identifier_start(c) {
        match reserved_word(s.subrange(a, b)) {
            Some(w) => t == w,
            None => t matches Token::Literal { type_: LiteralType::Identifier, value } && bytes_as_chars(
                value@,
            ) == s.subrange(a, b),
        }
    } else if is_digit(c) {
        t matches Token::Literal { type_: LiteralType::Number, value } && bytes_as_chars(value@)
            == s.subrange(a, b)
    } else if c == '\'' {
        t matches Token::Literal { type_: LiteralType::Char, value } && bytes_as_chars(value@)
            == s.subrange(a + 1, b - 1)
    } else {
        t matches Token::Literal { type_: LiteralType::String, value } && bytes_as_chars(value@)
            == s.subrange(a + 1, b - 1)
    }
}

/// `ts` are the tokens of `s`, in order.
pub open spec fn tokens_of(s: Seq<char>, spans: Seq<(int, int)>, ts: Seq<Token>) -> bool {
    &&& spans.len() == ts.len()
    &&& forall|k: int| 0 <= k < ts.len() ==> spells(#[trigger] ts[k], s, spans[k].0, spans[k].1)
}

/// A literal token carries exactly the source characters of its span `s[a..b]`:
/// those between the delimiters for char and string literals, all of them for
/// identifiers and numbers.
pub open spec fn payload_is_source(t: Token, s: Seq<char>, a: int, b: int) -> bool {
    match t {
        Token::Literal { type_, value } => 0 <= a < b <= s.len() && match type_ {
            LiteralType::Char => a + 2 <= b && s[a] == '\'' && s[b - 1] == '\'' && bytes_as_chars(value@)
                == s.subrange(a + 1, b - 1),
            LiteralType::String => a + 2 <= b && s[a] == '"' && s[b - 1] == '"' && bytes_as_chars(value@)
                == s.subrange(a + 1, b - 1),
            _ => bytes_as_chars(value@) == s.subrange(a, b),
        },
        _ => true,
    }
}

pub proof fn lemma_spans_are_tokens(s: Seq<char>, i: int)
    requires
        0 <= i <= s.len(),
    ensures
        lex_spans(s, i) matches Ok(spans) ==> forall|k: int| 0 <= k < spans.len() ==> {
            let (a, b) = #[trigger] spans[k];
            &&& i <= a < b <= s.len()
            &&& token_end(s, a) == Ok::<int, LexError>(b)
        },
    decreases s.len() - i,
{
    let p = skip_ignorable(s, i);
    lemma_skip_ignorable(s, i);
    if p < s.len() {
        lemma_token_end(s, p);
        if let Ok(j) = token_end(s, p) {
            lemma_spans_are_tokens(s, j);
            if let Ok(rest) = lex_spans(s, j) {
                let spans = seq![(p, j)] + rest;
                assert forall|k: int| 0 <= k < spans.len() implies {
                    let (a, b) = #[trigger] spans[k];
                    &&& i <= a < b <= s.len()
                    &&& token_end(s, a) == Ok::<int, LexError>(b)
                } by {
                    if k > 0 {
                        assert(spans[k] == rest[k - 1]);
                    }
                }
            }
        }
    }
}

/// Every literal token that tokenizing yields carries, as its bytes, exactly
/// the source characters between its delimiters (or its whole span, for
/// identifiers and numbers).
pub proof fn lemma_literal_payloads(s: Seq<char>, spans: Seq<(int, int)>, ts: Seq<Token>)
    requires
        lex_spans(s, 0) == Ok::<Seq<(int, int)>, LexError>(spans),
        tokens_of(s, spans, ts),
    ensures
        forall|k: int| 0 <= k < ts.len() ==> payload_is_source(#[trigger] ts[k], s, spans[k].0, spans[k].1),
{
    lemma_spans_are_tokens(s, 0);
    assert forall|k: int| 0 <= k < ts.len() implies payload_is_source(#[trigger] ts[k], s, spans[k].0, spans[k].1) by {
        let (a, b) = spans[k];
        assert(spells(ts[k], s, a, b));
        assert(token_end(s, a) == Ok::<int, LexError>(b));
        let c = s[a];
        if c == '\'' || c == '"' {
            lemma_run_end(s, a + 1, CharClass::Quoted { delimiter: c });
        }
    }
}

/// `r` is what reading the token that starts at `p` gives, and `end` where
/// reading stops when it succeeds.
pub open spec fn reads_token_at(s: Seq<char>, p: int, r: Result<Token, LexError>, end: int) -> bool {
    match token_end(s, p) {
        Ok(j) => r matches Ok(t) && spells(t, s, p, j) && end == j,
        Err(e) => r == Err::<Token, LexError>(e),
    }
}

/// The spans found so far, followed by those that are still to come.
pub open spec fn prepend_spans(
    done: Seq<(int, int)>,
    rest: Result<Seq<(int, int)>, LexError>,
) -> Result<Seq<(int, int)>, LexError> {
    match rest {
        Ok(r) => Ok(done + r),
        Err(e) => Err(e),
    }
}

/// Reads tokens from a sequence of characters.
pub struct Tokenizer {
    input: Vec<char>,
    position: usize,
}

pub proof fn lemma_ascii_round_trip(c: char)
    requires
        (c as u32) < 128,
    ensures
        ((c as u32) as u8) as char == c,
{
}

fn is_ignorable_char(c: char) -> (r: bool)
    ensures
        r == is_ignorable(c),
{
    c == ' ' || c == '\n' || c == '\r'
}

fn is_identifier_start_char(c: char) -> (r: bool)
    ensures
        r == is_identifier_start(c),
{
    ('a' <= c && c <= 'z') || ('A' <= c && c <= 'Z') || c == '_'
}

fn symbol_of(c: char) -> (r: Option<Token>)
    ensures
        r == symbol_token(c),
{
    match c {
        ',' => Some(Token::Comma),
        ':' => Some(Token::Colon),
        ';' => Some(Token::Semicolon),
        '+' => Some(Token::Operation { operator: Operator::Plus }),
        '-' => Some(Token::Operation { operator: Operator::Minus }),
        '*' => Some(Token::Operation { operator: Operator::Times }),
        '/' => Some(Token::Operation { operator: Operator::Divide }),
        '&' => Some(Token::Operation { operator: Operator::And }),
        '=' => Some(Token::Operation { operator: Operator::Assign }),
        '(' => Some(Token::OpenParent),
        ')' => Some(Token::ClosedParent),
        '[' => Some(Token::OpenBracket),
        ']' => Some(Token::ClosedBracket),
        _ => None,
    }
}

fn is_digit_char(c: char) -> (r: bool)
    ensures
        r == is_digit(c),
{
    '0' <= c && c <= '9'
}

fn matches_class(c: char, class: CharClass) -> (r: bool)
    ensures
        r == in_class(c, class),
{
    match class {
        CharClass::Identifier => ('a' <= c && c <= 'z') || ('A' <= c && c <= 'Z') || ('0' <= c && c
            <= '9') || c == '_',
        CharClass::Digit => '0' <= c && c <= '9',
        CharClass::Quoted { delimiter } => (c as u32) < 128 && c != delimiter,
    }
}

proof fn lemma_class_is_ascii(c: char, class: CharClass)
    requires
        in_class(c, class),
    ensures
        (c as u32) < 128,
{
}

impl Tokenizer {
    pub closed spec fn input(self) -> Seq<char> {
        self.input@
    }

    pub closed spec fn position(self) -> int {
        self.position as int
    }

    /// The position lies within the input or at its end.
    pub closed spec fn wf(self) -> bool {
        self.position <= self.input@.len()
    }

    pub fn new(input: Vec<char>) -> (r: Tokenizer)
        ensures
            r.wf(),
            r.input() == input@,
            r.position() == 0,
    {
        Tokenizer { input, position: 0 }
    }

    fn consume_char(&mut self) -> (r: char)
        requires
            old(self).position < old(self).input@.len(),
        ensures
            final(self).input == old(self).input,
            final(self).position == old(self).position + 1,
            r == old(self).input@[old(self).position as int],
    {
        let c = self.input[self.position];
        assert(self.position < self.input.len());
        self.position = self.position + 1;
        c
    }

    fn skip_ignorables(&mut self)
        requires
            old(self).wf(),
        ensures
            final(self).wf(),
            final(self).input == old(self).input,
            final(self).position == skip_ignorable(old(self).input@, old(self).position as int),
    {
        while self.position < self.input.len() && is_ignorable_char(self.input[self.position])
            invariant
                self.wf(),
                self.input == old(self).input,
                skip_ignorable(self.input@, self.position as int) == skip_ignorable(
                    self.input@,
                    old(self).position as int,
                ),
            decreases self.input@.len() - self.position,
        {
            self.consume_char();
        }
    }

    /// Reads the longest run of `class` characters, as bytes.
    fn read_matching(&mut self, class: CharClass) -> (r: Vec<u8>)
        requires
            old(self).wf(),
        ensures
            final(self).wf(),
            final(self).input == old(self).input,
            final(self).position == run_end(old(self).input@, old(self).position as int, class),
            bytes_as_chars(r@) == old(self).input@.subrange(
                old(self).position as int,
                final(self).position as int,
            ),
    {
        let ghost start = self.position as int;
        let mut buffer: Vec<u8> = Vec::new();
        while self.position < self.input.len() && matches_class(self.input[self.position], class)
            invariant
                self.wf(),
                self.input == old(self).input,
                0 <= start <= self.position <= self.input@.len(),
                run_end(self.input@, self.position as int, class) == run_end(self.input@, start, class),
                bytes_as_chars(buffer@) == self.input@.subrange(start, self.position as int),
            decreases self.input@.len() - self.position,
        {
            let ghost before = buffer@;
            let c = self.consume_char();
            proof {
                lemma_class_is_ascii(c, class);
                lemma_ascii_round_trip(c);
            }
            let b = c as u32 as u8;
            buffer.push(b);
            assert(buffer@ == before.push(b));
            assert(b as char == c);
            assert(bytes_as_chars(buffer@) =~= bytes_as_chars(before).push(c));
            assert(self.input@.subrange(start, self.position as int) =~= self.input@.subrange(
                start,
                self.position - 1,
            ).push(c));
        }
        buffer
    }

    /// Whether the input between `a` and `b` is the word `w`.
    fn spells_word(&self, a: usize, b: usize, w: &[char]) -> (r: bool)
        requires
            a <= b <= self.input@.len(),
        ensures
            r == (self.input@.subrange(a as int, b as int) == w@),
    {
        if b - a != w.len() {
            assert(self.input@.subrange(a as int, b as int).len() != w@.len());
            return false;
        }
        let mut k: usize = 0;
        while k < w.len()
            invariant
                a <= b <= self.input@.len(),
                b - a == w@.len(),
                k <= w@.len(),
                forall|m: int| 0 <= m < k ==> self.input@[a + m] == w@[m],
            decreases w.len() - k,
        {
            if self.input[a + k] != w[k] {
                assert(self.input@.subrange(a as int, b as int)[k as int] != w@[k as int]);
                return false;
            }
            k = k + 1;
        }
        assert(self.input@.subrange(a as int, b as int) =~= w@);
        true
    }

    fn tokenize_singe_symbol(&mut self) -> (r: Result<Token, LexError>)
        requires
            old(self).wf(),
            old(self).position < old(self).input@.len(),
        ensures
            final(self).wf(),
            final(self).input == old(self).input,
            final(self).position == old(self).position + 1,
            ({
                let c = old(self).input@[old(self).position as int];
                match symbol_token(c) {
                    Some(t) => r == Ok::<Token, LexError>(t),
                    None => r == Err::<Token, LexError>(
                        LexError::UnknownCharacter { position: old(self).position, character: c },
                    ),
                }
            }),
    {
        let position = self.position;
        let c = self.consume_char();
        match symbol_of(c) {
            Some(t) => Ok(t),
            None => Err(LexError::UnknownCharacter { position, character: c }),
        }
    }

    fn tokenize_identifier(&mut self) -> (r: Token)
        requires
            old(self).wf(),
            old(self).position < old(self).input@.len(),
            is_identifier_start(old(self).input@[old(self).position as int]),
        ensures
            final(self).wf(),
            final(self).input == old(self).input,
            reads_token_at(old(self).input@, old(self).position as int, Ok(r), final(self).position as int),
    {
        let a = self.position;
        let value = self.read_matching(CharClass::Identifier);
        let b = self.position;
        proof {
            lemma_run_end(self.input@, a as int, CharClass::Identifier);
            assert(symbol_token(self.input@[a as int]) is None);
        }
        let ghost w = self.input@.subrange(a as int, b as int);
        if self.spells_word(a, b, &['l', 'e', 't']) {
            assert(w =~= seq!['l', 'e', 't']);
            Token::Keyword { keyword: Keyword::Let }
        } else if self.spells_word(a, b, &['e', 'x', 'i', 't']) {
            assert(w =~= seq!['e', 'x', 'i', 't']);
            Token::Keyword { keyword: Keyword::Exit }
        } else if self.spells_word(a, b, &['p', 'r', 'i', 'n', 't']) {
            assert(w =~= seq!['p', 'r', 'i', 'n', 't']);
            Token::Keyword { keyword: Keyword::Print }
        } else if self.spells_word(a, b, &['u', '6', '4']) {
            assert(w =~= seq!['u', '6', '4']);
            Token::Type { type_: TypeType::U64 }
        } else if self.spells_word(a, b, &['u', '3', '2']) {
            assert(w =~= seq!['u', '3', '2']);
            Token::Type { type_: TypeType::U32 }
        } else if self.spells_word(a, b, &['u', '1', '6']) {
            assert(w =~= seq!['u', '1', '6']);
            Token::Type { type_: TypeType::U16 }
        } else if self.spells_word(a, b, &['u', '8']) {
            assert(w =~= seq!['u', '8']);
            Token::Type { type_: TypeType::U8 }
        } else if self.spells_word(a, b, &['c', 'h', 'a', 'r']) {
            assert(w =~= seq!['c', 'h', 'a', 'r']);
            Token::Type { type_: TypeType::Char }
        } else {
            Token::Literal { type_: LiteralType::Identifier, value }
        }
    }

    fn tokenize_number(&mut self) -> (r: Token)
        requires
            old(self).wf(),
            old(self).position < old(self).input@.len(),
            is_digit(old(self).input@[old(self).position as int]),
        ensures
            final(self).wf(),
            final(self).input == old(self).input,
            reads_token_at(old(self).input@, old(self).position as int, Ok(r), final(self).position as int),
    {
        let value = self.read_matching(CharClass::Digit);
        Token::Literal { type_: LiteralType::Number, value }
    }

    /// Reads a literal between two `delimiter`s, taken verbatim.
    fn tokenize_quoted(&mut self, delimiter: char, type_: LiteralType) -> (r: Result<Token, LexError>)
        requires
            old(self).wf(),
            old(self).position < old(self).input@.len(),
            old(self).input@[old(self).position as int] == delimiter,
            (delimiter == '\'' && type_ == LiteralType::Char) || (delimiter == '"' && type_
                == LiteralType::String),
        ensures
            final(self).wf(),
            final(self).input == old(self).input,
            reads_token_at(old(self).input@, old(self).position as int, r, final(self).position as int),
    {
        let start = self.position;
        self.consume_char();
        let value = self.read_matching(CharClass::Quoted { delimiter });
        proof {
            lemma_run_end(self.input@, start + 1, CharClass::Quoted { delimiter });
        }
        if self.position >= self.input.len() {
            return Err(LexError::Unterminated { position: start });
        }
        let position = self.position;
        let c = self.consume_char();
        if c != delimiter {
            return Err(LexError::UnknownCharacter { position, character: c });
        }
        Ok(Token::Literal { type_, value })
    }

    fn tokenize_char(&mut self) -> (r: Result<Token, LexError>)
        requires
            old(self).wf(),
            old(self).position < old(self).input@.len(),
            old(self).input@[old(self).position as int] == '\'',
        ensures
            final(self).wf(),
            final(self).input == old(self).input,
            reads_token_at(old(self).input@, old(self).position as int, r, final(self).position as int),
    {
        self.tokenize_quoted('\'', LiteralType::Char)
    }

    fn tokenize_string(&mut self) -> (r: Result<Token, LexError>)
        requires
            old(self).wf(),
            old(self).position < old(self).input@.len(),
            old(self).input@[old(self).position as int] == '"',
        ensures
            final(self).wf(),
            final(self).input == old(self).input,
            reads_token_at(old(self).input@, old(self).position as int, r, final(self).position as int),
    {
        self.tokenize_quoted('"', LiteralType::String)
    }

    /// Skips ignorable characters and reads one token; `EOF` at the end of the input.
    fn next_token(&mut self) -> (r: Result<Token, LexError>)
        requires
            old(self).wf(),
        ensures
            final(self).wf(),
            final(self).input == old(self).input,
            ({
                let s = old(self).input@;
                let p = skip_ignorable(s, old(self).position as int);
                if p >= s.len() {
                    r matches Ok(t) && t is EOF
                } else {
                    reads_token_at(s, p, r, final(self).position as int)
                }
            }),
    {
        self.skip_ignorables();
        proof {
            lemma_skip_ignorable(self.input@, old(self).position as int);
        }
        if self.position >= self.input.len() {
            return Ok(Token::EOF);
        }
        let c = self.input[self.position];
        if symbol_of(c).is_some() {
            self.tokenize_singe_symbol()
        } else if is_identifier_start_char(c) {
            Ok(self.tokenize_identifier())
        } else if is_digit_char(c) {
            Ok(self.tokenize_number())
        } else if c == '\'' {
            self.tokenize_char()
        } else if c == '"' {
            self.tokenize_string()
        } else {
            Err(LexError::UnknownCharacter { position: self.position, character: c })
        }
    }

    /// Every token of the rest of the input, in order, or the first reason
    /// why the input cannot be tokenized.
    pub fn tokenize(&mut self) -> (r: Result<Vec<Token>, LexError>)
        requires
            old(self).wf(),
        ensures
            final(self).input() == old(self).input(),
            match lex_spans(old(self).input(), old(self).position()) {
                Ok(spans) => r matches Ok(ts) && tokens_of(old(self).input(), spans, ts@),
                Err(e) => r == Err::<Vec<Token>, LexError>(e),
            },
    {
        let ghost s = self.input@;
        let ghost start = self.position as int;
        let mut tokens: Vec<Token> = Vec::new();
        let ghost mut spans: Seq<(int, int)> = Seq::empty();
        assert(spans + Seq::<(int, int)>::empty() =~= Seq::<(int, int)>::empty());
        assert(prepend_spans(spans, lex_spans(s, start)) == lex_spans(s, start)) by {
            match lex_spans(s, start) {
                Ok(rest) => assert(spans + rest =~= rest),
                Err(_) => {},
            }
        }
        loop
            invariant
                self.wf(),
                self.input@ == s,
                self.input == old(self).input,
                start == old(self).position as int,
                tokens_of(s, spans, tokens@),
                lex_spans(s, start) == prepend_spans(spans, lex_spans(s, self.position as int)),
            decreases s.len() - self.position,
        {
            let ghost from = self.position as int;
            let ghost p = skip_ignorable(s, from);
            proof {
                lemma_skip_ignorable(s, from);
            }
            match self.next_token() {
                Ok(t) => {
                    if matches!(t, Token::EOF) {
                        assert(p >= s.len());
                        assert(lex_spans(s, from) == Ok::<Seq<(int, int)>, LexError>(Seq::empty()));
                        assert(spans + Seq::<(int, int)>::empty() =~= spans);
                        return Ok(tokens);
                    }
                    let ghost j = self.position as int;
                    proof {
                        lemma_token_end(s, p);
                        match lex_spans(s, j) {
                            Ok(rest) => {
                                assert(spans.push((p, j)) + rest =~= spans + (seq![(p, j)] + rest));
                            },
                            Err(_) => {},
                        }
                    }
                    tokens.push(t);
                    proof {
                        spans = spans.push((p, j));
                    }
                },
                Err(e) => {
                    assert(p < s.len());
                    assert(token_end(s, p) == Err::<int, LexError>(e));
                    assert(lex_spans(s, from) == Err::<Seq<(int, int)>, LexError>(e));
                    return Err(e);
                },
            }
        }
    }
}

} // verus!
