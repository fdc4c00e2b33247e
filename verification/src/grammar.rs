//! The lexical grammar, stated as mathematics.
//!
//! [`scan`] says what the tokens of an input are. It reads the input from left
//! to right: at each position it skips a blank, or takes the longest number,
//! word or operator that starts there, or fails. The first failure is the
//! result of the whole scan.

use crate::class::{byte_class, continues_word, ByteClass};
use crate::error::LexErrorView;
use crate::number::decimal_value;
use crate::token::{keyword_kind, TokenKind};
use vstd::prelude::*;
use vstd::utf8::{decode_utf8, valid_utf8};

verus! {

/// The two kinds of lexeme that extend over a run of bytes.
#[derive(Clone, Copy, Debug, PartialEq, Eq)]
pub enum Run {
    /// Decimal digits: a number literal.
    Digits,
    /// Letters, digits, underscores and marks: an identifier or reserved word.
    Word,
}

/// Whether byte `b` belongs to a run of the given kind.
pub open spec fn in_run(run: Run, b: u8) -> bool {
    match run {
        Run::Digits => byte_class(b) is Digit,
        Run::Word => continues_word(b),
    }
}

/// Where the longest run that starts at `pos` ends: the first position from
/// `pos` on that holds a byte outside the run, or the end of the input.
pub open spec fn run_end(input: Seq<u8>, pos: int, run: Run) -> int
    decreases input.len() - pos,
{
    if 0 <= pos < input.len() && in_run(run, input[pos]) {
        run_end(input, pos + 1, run)
    } else {
        pos
    }
}

/// The characters that ASCII bytes stand for, one for one.
pub open spec fn ascii_text(bytes: Seq<u8>) -> Seq<char> {
    Seq::new(bytes.len(), |i: int| bytes[i] as char)
}

/// The token that a single character is by itself, whatever follows it.
pub open spec fn single_symbol(c: char) -> Option<TokenKind> {
    if c == '#' {
        Some(TokenKind::Hash)
    } else if c == '+' {
        Some(TokenKind::Plus)
    } else if c == '-' {
        Some(TokenKind::Minus)
    } else if c == '*' {
        Some(TokenKind::Multiply)
    } else if c == '/' {
        Some(TokenKind::Divide)
    } else if c == '(' {
        Some(TokenKind::LParen)
    } else if c == ')' {
        Some(TokenKind::RParen)
    } else if c == '.' {
        Some(TokenKind::Dot)
    } else if c == ',' {
        Some(TokenKind::Comma)
    } else if c == ';' {
        Some(TokenKind::SemiColon)
    } else if c == '?' {
        Some(TokenKind::Question)
    } else if c == '!' {
        Some(TokenKind::Exclamation)
    } else if c == '=' {
        Some(TokenKind::Equal)
    } else {
        None
    }
}

/// What the scanner does at one position of the input.
pub enum Step {
    /// The byte is blank: move on by one.
    Skip,
    /// A token starts here, and the scan goes on at `next`.
    Emit { kind: TokenKind, next: int },
    /// No token starts here: the scan fails.
    Fail { error: LexErrorView },
}

/// Whether `=` follows the byte at `pos`.
pub open spec fn equals_follows(input: Seq<u8>, pos: int) -> bool {
    pos + 1 < input.len() && input[pos + 1] as char == '='
}

/// The step at an operator or punctuation mark, or at a byte that starts no
/// token. `:=`, `<=` and `>=` take two bytes; `<` and `>` stand alone when no
/// `=` follows; `:` does not.
pub open spec fn operator_at(input: Seq<u8>, pos: int) -> Step
    recommends
        0 <= pos < input.len(),
{
    let c = input[pos] as char;
    if c == ':' {
        if equals_follows(input, pos) {
            Step::Emit { kind: TokenKind::Assign, next: pos + 2 }
        } else {
            Step::Fail { error: LexErrorView::MalformedOperator { ch: c, offset: pos } }
        }
    } else if c == '<' {
        if equals_follows(input, pos) {
            Step::Emit { kind: TokenKind::LessThanEqual, next: pos + 2 }
        } else {
            Step::Emit { kind: TokenKind::LessThan, next: pos + 1 }
        }
    } else if c == '>' {
        if equals_follows(input, pos) {
            Step::Emit { kind: TokenKind::GreaterThanEqual, next: pos + 2 }
        } else {
            Step::Emit { kind: TokenKind::GreaterThan, next: pos + 1 }
        }
    } else {
        match single_symbol(c) {
            Some(kind) => Step::Emit { kind, next: pos + 1 },
            None => Step::Fail {
                error: LexErrorView::InvalidCharacter { ch: c, offset: pos },
            },
        }
    }
}

/// The step at a digit: the longest run of digits is one number, which must
/// fit in 32 bits.
pub open spec fn number_at(input: Seq<u8>, pos: int) -> Step
    recommends
        0 <= pos < input.len(),
{
    let end = run_end(input, pos, Run::Digits);
    let digits = input.subrange(pos, end);
    if decimal_value(digits) <= u32::MAX {
        Step::Emit { kind: TokenKind::Number(decimal_value(digits) as u32), next: end }
    } else {
        Step::Fail {
            error: LexErrorView::NumberOverflow { digits: ascii_text(digits), offset: pos },
        }
    }
}

/// The token of a word: the reserved word that it spells, else an identifier.
pub open spec fn word_kind(text: Seq<char>) -> TokenKind {
    match keyword_kind(text) {
        Some(kind) => kind,
        None => TokenKind::Ident(text),
    }
}

/// The step at a letter or underscore: the longest run of word bytes is one
/// word, which must be well-formed UTF-8.
pub open spec fn word_at(input: Seq<u8>, pos: int) -> Step
    recommends
        0 <= pos < input.len(),
{
    let end = run_end(input, pos, Run::Word);
    let bytes = input.subrange(pos, end);
    if valid_utf8(bytes) {
        Step::Emit { kind: word_kind(decode_utf8(bytes)), next: end }
    } else {
        Step::Fail { error: LexErrorView::InvalidEncoding { offset: pos } }
    }
}

/// The step at position `pos`, by the class of the byte there.
pub open spec fn step(input: Seq<u8>, pos: int) -> Step
    recommends
        0 <= pos < input.len(),
{
    match byte_class(input[pos]) {
        ByteClass::Blank => Step::Skip,
        ByteClass::Digit => number_at(input, pos),
        ByteClass::Letter => word_at(input, pos),
        ByteClass::Mark | ByteClass::Other => operator_at(input, pos),
    }
}

/// The tokens `head`, followed by what the rest of the scan gives.
pub open spec fn prepend(
    head: Seq<TokenKind>,
    rest: Result<Seq<TokenKind>, LexErrorView>,
) -> Result<Seq<TokenKind>, LexErrorView> {
    match rest {
        Ok(tail) => Ok(head + tail),
        Err(error) => Err(error),
    }
}

/// The tokens of the input from position `pos` on, or the first failure.
pub open spec fn scan_from(input: Seq<u8>, pos: int) -> Result<Seq<TokenKind>, LexErrorView>
    decreases input.len() - pos,
    via scan_from_terminates
{
    if pos < 0 || pos >= input.len() {
        Ok(Seq::empty())
    } else {
        match step(input, pos) {
            Step::Skip => scan_from(input, pos + 1),
            Step::Emit { kind, next } => prepend(seq![kind], scan_from(input, next)),
            Step::Fail { error } => Err(error),
        }
    }
}

#[via_fn]
proof fn scan_from_terminates(input: Seq<u8>, pos: int) {
    if 0 <= pos < input.len() {
        lemma_step_advances(input, pos);
    }
}

/// The tokens of the whole input in source order, or the first failure.
pub open spec fn scan(input: Seq<u8>) -> Result<Seq<TokenKind>, LexErrorView> {
    scan_from(input, 0)
}

/// A run ends within the input, holds only bytes of its kind, and is as long as
/// it can be.
pub proof fn lemma_run_end(input: Seq<u8>, pos: int, run: Run)
    requires
        0 <= pos <= input.len(),
    ensures
        pos <= run_end(input, pos, run) <= input.len(),
        forall|i: int| pos <= i < run_end(input, pos, run) ==> in_run(run, #[trigger] input[i]),
        run_end(input, pos, run) < input.len() ==> !in_run(
            run,
            input[run_end(input, pos, run)],
        ),
    decreases input.len() - pos,
{
    if pos < input.len() && in_run(run, input[pos]) {
        lemma_run_end(input, pos + 1, run);
    }
}

/// A token is at least one byte long and ends within the input.
pub proof fn lemma_step_advances(input: Seq<u8>, pos: int)
    requires
        0 <= pos < input.len(),
    ensures
        step(input, pos) matches Step::Emit { next, .. } ==> pos < next <= input.len(),
{
    lemma_run_end(input, pos + 1, Run::Digits);
    lemma_run_end(input, pos + 1, Run::Word);
}

} // verus!
