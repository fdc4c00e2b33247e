use pl0_lexer::error::LexError;
use pl0_lexer::lexer::lex;
use pl0_lexer::token::{Token, TokenType};

fn number(value: u32) -> Result<Vec<Token>, LexError> {
    Ok(vec![Token(TokenType::Number(value))])
}

fn overflow(digits: &str, offset: usize) -> Result<Vec<Token>, LexError> {
    Err(LexError::NumberOverflow { digits: digits.to_string(), offset })
}

#[test]
fn the_largest_number_is_accepted() {
    assert_eq!(lex(b"4294967295"), number(4294967295));
    assert_eq!(lex((1u64 << 32).wrapping_sub(1).to_string().as_bytes()), number(u32::MAX));
}

#[test]
fn one_beyond_the_largest_number_overflows() {
    assert_eq!(lex(b"4294967296"), overflow("4294967296", 0));
    assert_eq!(lex((1u64 << 32).to_string().as_bytes()), overflow("4294967296", 0));
}

#[test]
fn overflow_is_never_wrapped_or_truncated() {
    assert_eq!(lex(b"4294967297"), overflow("4294967297", 0));
    assert_eq!(lex(b"42949672950"), overflow("42949672950", 0));
    assert_eq!(lex(b"9999999999"), overflow("9999999999", 0));
    assert_eq!(
        lex(b"18446744073709551616"),
        overflow("18446744073709551616", 0)
    );
    assert_eq!(
        lex(b"340282366920938463463374607431768211456"),
        overflow("340282366920938463463374607431768211456", 0)
    );
}

#[test]
fn overflow_reports_the_whole_literal_and_where_it_starts() {
    assert_eq!(lex(b"x := 99999999999;"), overflow("99999999999", 5));
    assert_eq!(lex(b"1 4294967296 2"), overflow("4294967296", 2));
    assert_eq!(lex(b"4294967296abc"), overflow("4294967296", 0));
}

#[test]
fn leading_zeros_do_not_change_the_value() {
    assert_eq!(lex(b"007"), number(7));
    assert_eq!(lex(b"0000000000000000000000000000000000000001"), number(1));
    assert_eq!(lex(b"00004294967295"), number(u32::MAX));
    assert_eq!(lex(b"00004294967296"), overflow("00004294967296", 0));
    assert_eq!(lex(b"0000000000"), number(0));
}

#[test]
fn digits_spell_their_decimal_value() {
    assert_eq!(lex(b"10"), number(10));
    assert_eq!(lex(b"1000000000"), number(1_000_000_000));
    assert_eq!(lex(b"4000000000"), number(4_000_000_000));
    assert_eq!(lex(b"2147483648"), number(2_147_483_648));
    for value in [0u32, 1, 9, 10, 99, 100, 65535, 65536, 123456789, u32::MAX - 1, u32::MAX] {
        assert_eq!(lex(value.to_string().as_bytes()), number(value));
    }
}
