//! The scanner: one pass over the input bytes, proved to return exactly what
//! the grammar says.

use core::str::from_utf8;
use crate::class::{classify, ByteClass};
use crate::error::{LexError, LexErrorView};
use crate::grammar::{
    ascii_text, equals_follows, in_run, lemma_run_end, lemma_step_advances, number_at,
    operator_at, prepend, run_end, scan, scan_from, single_symbol, step, word_at, Run, Step,
};
use crate::number::{all_digits, parse_decimal};
use crate::token::{parse_keyword, Token, TokenKind, TokenType};
use vstd::prelude::*;
use vstd::slice::slice_subrange;
use vstd::utf8::{
    decode_utf8, encode_utf8, encode_utf8_decode_utf8, encode_utf8_valid_utf8, is_ascii_chars,
    is_ascii_chars_encode_utf8, valid_utf8,
};

verus! {

/// What a scan returned, as mathematics.
pub open spec fn outcome(result: Result<Vec<Token>, LexError>) -> Result<
    Seq<TokenKind>,
    LexErrorView,
> {
    match result {
        Ok(tokens) => Ok(tokens.deep_view()),
        Err(error) => Err(error@),
    }
}

/// A token with the position after it, or a failure, as a step of the grammar.
pub open spec fn as_step(lexed: Result<(TokenType, usize), LexError>) -> Step {
    match lexed {
        Ok((token, next)) => Step::Emit { kind: token@, next: next as int },
        Err(error) => Step::Fail { error: error@ },
    }
}

/// ASCII bytes are well-formed UTF-8, and decode to the characters they stand
/// for.
pub proof fn lemma_ascii_decodes(bytes: Seq<u8>)
    requires
        forall|i: int| 0 <= i < bytes.len() ==> #[trigger] bytes[i] < 0x80,
    ensures
        valid_utf8(bytes),
        decode_utf8(bytes) == ascii_text(bytes),
{
    let text = ascii_text(bytes);
    assert(is_ascii_chars(text));
    is_ascii_chars_encode_utf8(text);
    assert(encode_utf8(text) =~= bytes);
    encode_utf8_valid_utf8(text);
    encode_utf8_decode_utf8(text);
}

fn belongs(run: Run, b: u8) -> (inside: bool)
    ensures
        inside == in_run(run, b),
{
    match run {
        Run::Digits => match classify(b) {
            ByteClass::Digit => true,
            _ => false,
        },
        Run::Word => match classify(b) {
            ByteClass::Letter | ByteClass::Digit | ByteClass::Mark => true,
            _ => false,
        },
    }
}

/// Finds the end of the longest run that starts at `start`. Every read is
/// within the input.
fn find_run_end(buf: &[u8], start: usize, run: Run) -> (end: usize)
    requires
        start <= buf@.len(),
    ensures
        end == run_end(buf@, start as int, run),
{
    let mut idx: usize = start;
    while idx < buf.len()
        invariant
            start <= idx <= buf@.len(),
            run_end(buf@, start as int, run) == run_end(buf@, idx as int, run),
        ensures
            idx <= buf@.len(),
            idx == run_end(buf@, start as int, run),
        decreases buf@.len() - idx,
    {
        if !belongs(run, buf[idx]) {
            break ;
        }
        idx += 1;
    }
    idx
}

fn symbol(c: char) -> (found: Option<TokenType>)
    ensures
        found.deep_view() == single_symbol(c),
{
    match c {
        '#' => Some(TokenType::Hash),
        '+' => Some(TokenType::Plus),
        '-' => Some(TokenType::Minus),
        '*' => Some(TokenType::Multiply),
        '/' => Some(TokenType::Divide),
        '(' => Some(TokenType::LParen),
        ')' => Some(TokenType::RParen),
        '.' => Some(TokenType::Dot),
        ',' => Some(TokenType::Comma),
        ';' => Some(TokenType::SemiColon),
        '?' => Some(TokenType::Question),
        '!' => Some(TokenType::Exclamation),
        '=' => Some(TokenType::Equal),
        _ => None,
    }
}

/// Reads the operator or punctuation mark at `idx`, looking one byte ahead
/// where one byte does not decide.
fn lex_operator(buf: &[u8], idx: usize) -> (lexed: Result<(TokenType, usize), LexError>)
    requires
        idx < buf@.len(),
    ensures
        as_step(lexed) == operator_at(buf@, idx as int),
{
    let c = buf[idx] as char;
    let followed = idx + 1 < buf.len() && buf[idx + 1] as char == '=';
    assert(followed == equals_follows(buf@, idx as int));
    if c == ':' {
        if followed {
            Ok((TokenType::Assign, idx + 2))
        } else {
            Err(LexError::MalformedOperator { ch: c, offset: idx })
        }
    } else if c == '<' {
        if followed {
            Ok((TokenType::LessThanEqual, idx + 2))
        } else {
            Ok((TokenType::LessThan, idx + 1))
        }
    } else if c == '>' {
        if followed {
            Ok((TokenType::GreaterThanEqual, idx + 2))
        } else {
            Ok((TokenType::GreaterThan, idx + 1))
        }
    } else {
        match symbol(c) {
            Some(token) => Ok((token, idx + 1)),
            None => Err(LexError::InvalidCharacter { ch: c, offset: idx }),
        }
    }
}

/// Reads the number literal that starts at `idx`.
fn lex_number(buf: &[u8], idx: usize) -> (lexed: Result<(TokenType, usize), LexError>)
    requires
        idx < buf@.len(),
    ensures
        as_step(lexed) == number_at(buf@, idx as int),
{
    let end = find_run_end(buf, idx, Run::Digits);
    proof {
        lemma_run_end(buf@, idx as int, Run::Digits);
    }
    let digits = slice_subrange(buf, idx, end);
    assert(all_digits(digits@)) by {
        assert forall|i: int| 0 <= i < digits@.len() implies in_run(
            Run::Digits,
            #[trigger] digits@[i],
        ) by {
            assert(digits@[i] == buf@[idx + i]);
        }
    }
    match parse_decimal(digits) {
        Some(value) => Ok((TokenType::Number(value), end)),
        None => {
            // A run of digits is ASCII, so it always decodes.
            proof {
                lemma_ascii_decodes(digits@);
            }
            match from_utf8(digits) {
                Ok(text) => {
                    proof {
                        encode_utf8_decode_utf8(text@);
                    }
                    Err(LexError::NumberOverflow { digits: text.to_owned(), offset: idx })
                },
                Err(_) => Err(LexError::InvalidEncoding { offset: idx }),
            }
        },
    }
}

/// Reads the word that starts at `idx`: a reserved word or an identifier.
fn lex_word(buf: &[u8], idx: usize) -> (lexed: Result<(TokenType, usize), LexError>)
    requires
        idx < buf@.len(),
    ensures
        as_step(lexed) == word_at(buf@, idx as int),
{
    let end = find_run_end(buf, idx, Run::Word);
    proof {
        lemma_run_end(buf@, idx as int, Run::Word);
    }
    let bytes = slice_subrange(buf, idx, end);
    match from_utf8(bytes) {
        Ok(text) => {
            proof {
                encode_utf8_decode_utf8(text@);
            }
            let token = match parse_keyword(text) {
                Some(reserved) => reserved,
                None => TokenType::Ident(text.to_owned()),
            };
            Ok((token, end))
        },
        Err(_) => Err(LexError::InvalidEncoding { offset: idx }),
    }
}

/// Scans the whole input and returns its tokens in source order, or the first
/// failure. The input is only read, and may be of any length.
pub fn lex(buf: &[u8]) -> (result: Result<Vec<Token>, LexError>)
    ensures
        outcome(result) == scan(buf@),
{
    let mut tokens: Vec<Token> = Vec::new();
    let mut idx: usize = 0;
    proof {
        assert(tokens.deep_view() =~= Seq::<TokenKind>::empty());
        match scan(buf@) {
            Ok(tail) => assert(Seq::<TokenKind>::empty() + tail =~= tail),
            Err(_) => {},
        }
    }
    while idx < buf.len()
        invariant
            idx <= buf@.len(),
            scan(buf@) == prepend(tokens.deep_view(), scan_from(buf@, idx as int)),
        decreases buf@.len() - idx,
    {
        let class = classify(buf[idx]);
        if let ByteClass::Blank = class {
            idx += 1;
        } else {
            let lexed = match class {
                ByteClass::Digit => lex_number(buf, idx),
                ByteClass::Letter => lex_word(buf, idx),
                _ => lex_operator(buf, idx),
            };
            assert(as_step(lexed) == step(buf@, idx as int));
            match lexed {
                Ok((token, next)) => {
                    proof {
                        lemma_step_advances(buf@, idx as int);
                        let before = tokens.deep_view();
                        let after = before.push(token@);
                        match scan_from(buf@, next as int) {
                            Ok(tail) => assert(before + (seq![token@] + tail) =~= after + tail),
                            Err(_) => {},
                        }
                    }
                    let ghost before = tokens.deep_view();
                    tokens.push(Token(token));
                    assert(tokens.deep_view() =~= before.push(token@));
                    idx = next;
                },
                Err(error) => {
                    return Err(error);
                },
            }
        }
    }
    proof {
        assert(tokens.deep_view() + Seq::<TokenKind>::empty() =~= tokens.deep_view());
    }
    Ok(tokens)
}

} // verus!
