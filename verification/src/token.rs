//! Tokens, their mathematical views, and the table of reserved words.

use vstd::prelude::*;
use vstd::utf8::encode_utf8_decode_utf8;

verus! {

/// What a token is: an identifier or a number with its payload, a reserved
/// word, or an operator or punctuation mark.
#[derive(PartialEq, Clone, Debug)]
pub enum TokenType {
    Ident(String),
    Number(u32),
    Const,
    Var,
    Procedure,
    Call,
    Begin,
    End,
    If,
    Then,
    While,
    Do,
    Odd,
    Assign,
    Equal,
    Hash,
    LessThan,
    LessThanEqual,
    GreaterThan,
    GreaterThanEqual,
    Plus,
    Minus,
    Multiply,
    Divide,
    LParen,
    RParen,
    Dot,
    Comma,
    SemiColon,
    Question,
    Exclamation,
}

/// One lexical unit of the source text.
#[derive(PartialEq, Debug)]
pub struct Token(pub TokenType);

/// The mathematical value of a [`TokenType`]: the same variants, with an
/// identifier's text as a sequence of characters.
pub enum TokenKind {
    Ident(Seq<char>),
    Number(u32),
    Const,
    Var,
    Procedure,
    Call,
    Begin,
    End,
    If,
    Then,
    While,
    Do,
    Odd,
    Assign,
    Equal,
    Hash,
    LessThan,
    LessThanEqual,
    GreaterThan,
    GreaterThanEqual,
    Plus,
    Minus,
    Multiply,
    Divide,
    LParen,
    RParen,
    Dot,
    Comma,
    SemiColon,
    Question,
    Exclamation,
}

impl View for TokenType {
    type V = TokenKind;

    open spec fn view(&self) -> TokenKind {
        match self {
            TokenType::Ident(text) => TokenKind::Ident(text@),
            TokenType::Number(value) => TokenKind::Number(*value),
            TokenType::Const => TokenKind::Const,
            TokenType::Var => TokenKind::Var,
            TokenType::Procedure => TokenKind::Procedure,
            TokenType::Call => TokenKind::Call,
            TokenType::Begin => TokenKind::Begin,
            TokenType::End => TokenKind::End,
            TokenType::If => TokenKind::If,
            TokenType::Then => TokenKind::Then,
            TokenType::While => TokenKind::While,
            TokenType::Do => TokenKind::Do,
            TokenType::Odd => TokenKind::Odd,
            TokenType::Assign => TokenKind::Assign,
            TokenType::Equal => TokenKind::Equal,
            TokenType::Hash => TokenKind::Hash,
            TokenType::LessThan => TokenKind::LessThan,
            TokenType::LessThanEqual => TokenKind::LessThanEqual,
            TokenType::GreaterThan => TokenKind::GreaterThan,
            TokenType::GreaterThanEqual => TokenKind::GreaterThanEqual,
            TokenType::Plus => TokenKind::Plus,
            TokenType::Minus => TokenKind::Minus,
            TokenType::Multiply => TokenKind::Multiply,
            TokenType::Divide => TokenKind::Divide,
            TokenType::LParen => TokenKind::LParen,
            TokenType::RParen => TokenKind::RParen,
            TokenType::Dot => TokenKind::Dot,
            TokenType::Comma => TokenKind::Comma,
            TokenType::SemiColon => TokenKind::SemiColon,
            TokenType::Question => TokenKind::Question,
            TokenType::Exclamation => TokenKind::Exclamation,
        }
    }
}

impl DeepView for TokenType {
    type V = TokenKind;

    open spec fn deep_view(&self) -> TokenKind {
        self@
    }
}

impl View for Token {
    type V = TokenKind;

    open spec fn view(&self) -> TokenKind {
        self.0@
    }
}

impl DeepView for Token {
    type V = TokenKind;

    open spec fn deep_view(&self) -> TokenKind {
        self@
    }
}

/// The reserved word that `word` spells, if it spells one. The match is exact
/// and case-sensitive: eleven words, all upper case.
pub open spec fn keyword_kind(word: Seq<char>) -> Option<TokenKind> {
    if word == "CONST"@ {
        Some(TokenKind::Const)
    } else if word == "VAR"@ {
        Some(TokenKind::Var)
    } else if word == "PROCEDURE"@ {
        Some(TokenKind::Procedure)
    } else if word == "CALL"@ {
        Some(TokenKind::Call)
    } else if word == "BEGIN"@ {
        Some(TokenKind::Begin)
    } else if word == "END"@ {
        Some(TokenKind::End)
    } else if word == "IF"@ {
        Some(TokenKind::If)
    } else if word == "THEN"@ {
        Some(TokenKind::Then)
    } else if word == "WHILE"@ {
        Some(TokenKind::While)
    } else if word == "DO"@ {
        Some(TokenKind::Do)
    } else if word == "ODD"@ {
        Some(TokenKind::Odd)
    } else {
        None
    }
}

/// Whether two byte slices hold the same bytes.
fn same_bytes(a: &[u8], b: &[u8]) -> (same: bool)
    ensures
        same == (a@ == b@),
{
    if a.len() != b.len() {
        return false;
    }
    let mut i: usize = 0;
    while i < a.len()
        invariant
            a@.len() == b@.len(),
            i <= a@.len(),
            a@.subrange(0, i as int) == b@.subrange(0, i as int),
        decreases a@.len() - i,
    {
        if a[i] != b[i] {
            return false;
        }
        assert(a@.subrange(0, i + 1) == a@.subrange(0, i as int).push(a@[i as int]));
        assert(b@.subrange(0, i + 1) == b@.subrange(0, i as int).push(b@[i as int]));
        i += 1;
    }
    assert(a@ == a@.subrange(0, i as int));
    assert(b@ == b@.subrange(0, i as int));
    true
}

/// Whether two strings hold the same characters. Two strings are equal exactly
/// when their UTF-8 encodings are, so the bytes are compared.
fn same_text(a: &str, b: &str) -> (same: bool)
    ensures
        same == (a@ == b@),
{
    proof {
        encode_utf8_decode_utf8(a@);
        encode_utf8_decode_utf8(b@);
    }
    same_bytes(a.as_bytes(), b.as_bytes())
}

/// Looks `keyword` up among the reserved words.
pub fn parse_keyword(keyword: &str) -> (found: Option<TokenType>)
    ensures
        found.deep_view() == keyword_kind(keyword@),
{
    if same_text(keyword, "CONST") {
        Some(TokenType::Const)
    } else if same_text(keyword, "VAR") {
        Some(TokenType::Var)
    } else if same_text(keyword, "PROCEDURE") {
        Some(TokenType::Procedure)
    } else if same_text(keyword, "CALL") {
        Some(TokenType::Call)
    } else if same_text(keyword, "BEGIN") {
        Some(TokenType::Begin)
    } else if same_text(keyword, "END") {
        Some(TokenType::End)
    } else if same_text(keyword, "IF") {
        Some(TokenType::If)
    } else if same_text(keyword, "THEN") {
        Some(TokenType::Then)
    } else if same_text(keyword, "WHILE") {
        Some(TokenType::While)
    } else if same_text(keyword, "DO") {
        Some(TokenType::Do)
    } else if same_text(keyword, "ODD") {
        Some(TokenType::Odd)
    } else {
        None
    }
}

} // verus!
