//! Laws of the grammar: what holds of the tokens of every input.

use crate::class::{byte_class, ByteClass};
use crate::error::LexErrorView;
use crate::grammar::{
    ascii_text, equals_follows, in_run, lemma_run_end, lemma_step_advances, number_at, prepend,
    run_end, scan, scan_from, step, Run, Step,
};
use crate::number::{all_digits, decimal_value};
use crate::token::{keyword_kind, TokenKind};
use vstd::prelude::*;
use vstd::utf8::decode_utf8;

verus! {

/// Whether every byte of `bytes` is blank.
pub open spec fn all_blank(bytes: Seq<u8>) -> bool {
    forall|i: int| 0 <= i < bytes.len() ==> byte_class(#[trigger] bytes[i]) is Blank
}

/// The result of a scan that started `by` bytes into a longer input: the same
/// tokens, or the same failure that much further on.
pub open spec fn shifted(
    result: Result<Seq<TokenKind>, LexErrorView>,
    by: int,
) -> Result<Seq<TokenKind>, LexErrorView> {
    match result {
        Ok(tokens) => Ok(tokens),
        Err(error) => Err(error.shifted(by)),
    }
}

/// What two scans give when the second input follows the first at offset `at`:
/// the tokens of both in order, or the first failure.
pub open spec fn joined(
    first: Result<Seq<TokenKind>, LexErrorView>,
    second: Result<Seq<TokenKind>, LexErrorView>,
    at: int,
) -> Result<Seq<TokenKind>, LexErrorView> {
    match first {
        Ok(tokens) => prepend(tokens, shifted(second, at)),
        Err(error) => Err(error),
    }
}

/// A step taken `by` bytes further into a longer input.
spec fn shifted_step(taken: Step, by: int) -> Step {
    match taken {
        Step::Skip => Step::Skip,
        Step::Emit { kind, next } => Step::Emit { kind, next: next + by },
        Step::Fail { error } => Step::Fail { error: error.shifted(by) },
    }
}

/// Blank bytes yield no token: the scan goes on behind them as if it had
/// started there.
pub proof fn lemma_blanks_are_skipped(input: Seq<u8>, from: int, to: int)
    requires
        0 <= from <= to <= input.len(),
        forall|i: int| from <= i < to ==> byte_class(#[trigger] input[i]) is Blank,
    ensures
        scan_from(input, from) == scan_from(input, to),
    decreases to - from,
{
    if from < to {
        lemma_blanks_are_skipped(input, from + 1, to);
    }
}

/// A run that is known to hold only bytes of its kind, and to stop at `end`,
/// ends at `end`.
proof fn lemma_run_reaches(input: Seq<u8>, pos: int, end: int, run: Run)
    requires
        0 <= pos <= end <= input.len(),
        forall|i: int| pos <= i < end ==> in_run(run, #[trigger] input[i]),
        end < input.len() ==> !in_run(run, input[end]),
    ensures
        run_end(input, pos, run) == end,
    decreases end - pos,
{
    if pos < end {
        lemma_run_reaches(input, pos + 1, end, run);
    }
}

/// An input of blanks alone, the empty input among them, has no tokens.
pub proof fn law_blank_input_has_no_tokens(input: Seq<u8>)
    requires
        all_blank(input),
    ensures
        scan(input) == Ok::<Seq<TokenKind>, LexErrorView>(Seq::empty()),
{
    lemma_blanks_are_skipped(input, 0, input.len() as int);
}

/// An input of decimal digits alone is one number token with the value that the
/// digits spell, if that value fits in 32 bits, and an overflow failure at
/// offset zero if it does not.
pub proof fn law_digits_are_one_number(input: Seq<u8>)
    requires
        input.len() > 0,
        all_digits(input),
    ensures
        decimal_value(input) <= u32::MAX ==> scan(input) == Ok::<Seq<TokenKind>, LexErrorView>(
            seq![TokenKind::Number(decimal_value(input) as u32)],
        ),
        decimal_value(input) > u32::MAX ==> scan(input) == Err::<Seq<TokenKind>, LexErrorView>(
            LexErrorView::NumberOverflow { digits: ascii_text(input), offset: 0 },
        ),
{
    let end = input.len() as int;
    lemma_run_reaches(input, 0, end, Run::Digits);
    assert(input.subrange(0, end) == input);
    assert(step(input, 0) == number_at(input, 0));
    assert(scan_from(input, end) == Ok::<Seq<TokenKind>, LexErrorView>(Seq::empty()));
    if decimal_value(input) <= u32::MAX {
        let kind = TokenKind::Number(decimal_value(input) as u32);
        assert(seq![kind] + Seq::<TokenKind>::empty() == seq![kind]);
    }
}

/// Before a blank, a run ends where it would end if the input ended there.
proof fn lemma_run_end_before_blank(head: Seq<u8>, tail: Seq<u8>, pos: int, run: Run)
    requires
        0 <= pos <= head.len(),
        tail.len() > 0,
        byte_class(tail[0]) is Blank,
    ensures
        run_end(head + tail, pos, run) == run_end(head, pos, run),
    decreases head.len() - pos,
{
    let whole = head + tail;
    if pos < head.len() {
        assert(whole[pos] == head[pos]);
        if in_run(run, head[pos]) {
            lemma_run_end_before_blank(head, tail, pos + 1, run);
        }
    } else {
        assert(whole[pos] == tail[0]);
    }
}

/// Before a blank, each step is what it would be if the input ended there.
proof fn lemma_step_before_blank(head: Seq<u8>, tail: Seq<u8>, pos: int)
    requires
        0 <= pos < head.len(),
        tail.len() > 0,
        byte_class(tail[0]) is Blank,
    ensures
        step(head + tail, pos) == step(head, pos),
{
    let whole = head + tail;
    assert(whole[pos] == head[pos]);
    match byte_class(head[pos]) {
        ByteClass::Blank => {},
        ByteClass::Digit => {
            lemma_run_end_before_blank(head, tail, pos, Run::Digits);
            lemma_run_end(head, pos, Run::Digits);
            let end = run_end(head, pos, Run::Digits);
            assert(whole.subrange(pos, end) == head.subrange(pos, end));
        },
        ByteClass::Letter => {
            lemma_run_end_before_blank(head, tail, pos, Run::Word);
            lemma_run_end(head, pos, Run::Word);
            let end = run_end(head, pos, Run::Word);
            assert(whole.subrange(pos, end) == head.subrange(pos, end));
        },
        ByteClass::Mark | ByteClass::Other => {
            if pos + 1 < head.len() {
                assert(whole[pos + 1] == head[pos + 1]);
            } else {
                assert(whole[pos + 1] == tail[0]);
            }
            assert(equals_follows(whole, pos) == equals_follows(head, pos));
        },
    }
}

/// Up to a blank, a scan gives what it would give if the input ended there,
/// and then goes on from the blank.
proof fn lemma_scan_before_blank(head: Seq<u8>, tail: Seq<u8>, pos: int)
    requires
        0 <= pos <= head.len(),
        tail.len() > 0,
        byte_class(tail[0]) is Blank,
    ensures
        scan_from(head + tail, pos) == (match scan_from(head, pos) {
            Ok(tokens) => prepend(tokens, scan_from(head + tail, head.len() as int)),
            Err(error) => Err(error),
        }),
    decreases head.len() - pos,
{
    let whole = head + tail;
    let rest = scan_from(whole, head.len() as int);
    if pos == head.len() {
        match rest {
            Ok(tokens) => assert(Seq::<TokenKind>::empty() + tokens == tokens),
            Err(_) => {},
        }
    } else {
        lemma_step_before_blank(head, tail, pos);
        lemma_step_advances(head, pos);
        match step(head, pos) {
            Step::Skip => {
                lemma_scan_before_blank(head, tail, pos + 1);
            },
            Step::Emit { kind, next } => {
                lemma_scan_before_blank(head, tail, next);
                match (scan_from(head, next), rest) {
                    (Ok(tokens), Ok(more)) => {
                        assert(seq![kind] + (tokens + more) == (seq![kind] + tokens) + more);
                    },
                    _ => {},
                }
            },
            Step::Fail { .. } => {},
        }
    }
}

/// Behind a prefix, a run ends where it would end without the prefix.
proof fn lemma_run_end_behind(front: Seq<u8>, back: Seq<u8>, pos: int, run: Run)
    requires
        0 <= pos <= back.len(),
    ensures
        run_end(front + back, front.len() + pos, run) == front.len() + run_end(back, pos, run),
    decreases back.len() - pos,
{
    let whole = front + back;
    if pos < back.len() {
        assert(whole[front.len() + pos] == back[pos]);
        if in_run(run, back[pos]) {
            lemma_run_end_behind(front, back, pos + 1, run);
        }
    }
}

/// Behind a prefix, each step is what it would be without the prefix.
proof fn lemma_step_behind(front: Seq<u8>, back: Seq<u8>, pos: int)
    requires
        0 <= pos < back.len(),
    ensures
        step(front + back, front.len() + pos) == shifted_step(step(back, pos), front.len() as int),
{
    let whole = front + back;
    let at = front.len() + pos;
    assert(whole[at] == back[pos]);
    match byte_class(back[pos]) {
        ByteClass::Blank => {},
        ByteClass::Digit => {
            lemma_run_end_behind(front, back, pos, Run::Digits);
            lemma_run_end(back, pos, Run::Digits);
            let end = run_end(back, pos, Run::Digits);
            assert(whole.subrange(at, front.len() + end) == back.subrange(pos, end));
        },
        ByteClass::Letter => {
            lemma_run_end_behind(front, back, pos, Run::Word);
            lemma_run_end(back, pos, Run::Word);
            let end = run_end(back, pos, Run::Word);
            assert(whole.subrange(at, front.len() + end) == back.subrange(pos, end));
        },
        ByteClass::Mark | ByteClass::Other => {
            if pos + 1 < back.len() {
                assert(whole[at + 1] == back[pos + 1]);
            }
            assert(equals_follows(whole, at) == equals_follows(back, pos));
        },
    }
}

/// Behind a prefix, a scan gives what it would give without the prefix, with
/// any failure reported that much further on.
proof fn lemma_scan_behind(front: Seq<u8>, back: Seq<u8>, pos: int)
    requires
        0 <= pos <= back.len(),
    ensures
        scan_from(front + back, front.len() + pos) == shifted(
            scan_from(back, pos),
            front.len() as int,
        ),
    decreases back.len() - pos,
{
    if pos < back.len() {
        lemma_step_behind(front, back, pos);
        lemma_step_advances(back, pos);
        match step(back, pos) {
            Step::Skip => {
                lemma_scan_behind(front, back, pos + 1);
            },
            Step::Emit { kind, next } => {
                lemma_scan_behind(front, back, next);
            },
            Step::Fail { .. } => {},
        }
    }
}

/// Blanks separate: the tokens of two inputs joined by one or more blank bytes
/// are the tokens of the first followed by the tokens of the second. A failure
/// in the first input is the failure of the whole; a failure in the second is
/// reported at its offset in the whole.
pub proof fn law_blanks_separate(first: Seq<u8>, blanks: Seq<u8>, second: Seq<u8>)
    requires
        blanks.len() > 0,
        all_blank(blanks),
    ensures
        scan(first + blanks + second) == joined(
            scan(first),
            scan(second),
            (first.len() + blanks.len()) as int,
        ),
{
    let whole = first + blanks + second;
    let gap_start = first.len() as int;
    let gap_end = (first.len() + blanks.len()) as int;
    assert(whole == first + (blanks + second));
    assert((blanks + second)[0] == blanks[0]);
    lemma_scan_before_blank(first, blanks + second, 0);
    assert forall|i: int| gap_start <= i < gap_end implies byte_class(
        #[trigger] whole[i],
    ) is Blank by {
        assert(whole[i] == blanks[i - gap_start]);
    }
    lemma_blanks_are_skipped(whole, gap_start, gap_end);
    lemma_scan_behind(first + blanks, second, 0);
}

/// How many blanks separate two inputs, and which, makes no difference to the
/// tokens.
pub proof fn law_blanks_are_interchangeable(
    first: Seq<u8>,
    blanks: Seq<u8>,
    others: Seq<u8>,
    second: Seq<u8>,
)
    requires
        blanks.len() > 0,
        others.len() > 0,
        all_blank(blanks),
        all_blank(others),
        scan(first) is Err || scan(second) is Ok,
    ensures
        scan(first + blanks + second) == scan(first + others + second),
{
    law_blanks_separate(first, blanks, second);
    law_blanks_separate(first, others, second);
}

/// Whether a token, if it is an identifier, has a text that is not empty and
/// spells no reserved word.
pub open spec fn proper_identifier(kind: TokenKind) -> bool {
    kind matches TokenKind::Ident(text) ==> text.len() > 0 && keyword_kind(text) is None
}

proof fn lemma_identifiers_from(input: Seq<u8>, pos: int, tokens: Seq<TokenKind>)
    requires
        0 <= pos <= input.len(),
        scan_from(input, pos) == Ok::<Seq<TokenKind>, LexErrorView>(tokens),
    ensures
        forall|i: int| 0 <= i < tokens.len() ==> proper_identifier(#[trigger] tokens[i]),
    decreases input.len() - pos,
{
    if pos < input.len() {
        lemma_step_advances(input, pos);
        match step(input, pos) {
            Step::Skip => {
                lemma_identifiers_from(input, pos + 1, tokens);
            },
            Step::Emit { kind, next } => {
                let rest = scan_from(input, next)->Ok_0;
                lemma_identifiers_from(input, next, rest);
                assert(proper_identifier(kind)) by {
                    if byte_class(input[pos]) is Letter {
                        lemma_run_end(input, pos + 1, Run::Word);
                        let bytes = input.subrange(pos, next);
                        assert(bytes.len() > 0);
                        assert(decode_utf8(bytes).len() > 0);
                    }
                }
                assert forall|i: int| 0 <= i < tokens.len() implies proper_identifier(
                    #[trigger] tokens[i],
                ) by {
                    if i > 0 {
                        assert(tokens[i] == rest[i - 1]);
                    }
                }
            },
            Step::Fail { .. } => {},
        }
    }
}

/// No identifier among the tokens of an input is empty, and none spells a
/// reserved word: a word that is reserved is always that reserved word's token.
pub proof fn law_identifiers_are_proper(input: Seq<u8>, tokens: Seq<TokenKind>)
    requires
        scan(input) == Ok::<Seq<TokenKind>, LexErrorView>(tokens),
    ensures
        forall|i: int| 0 <= i < tokens.len() ==> proper_identifier(#[trigger] tokens[i]),
{
    lemma_identifiers_from(input, 0, tokens);
}

} // verus!
