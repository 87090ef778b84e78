//! The engine's answer to one chunk: a fixed number of confidence lines.
//!
//! The answer is text, one confidence per line, each line ended by a line
//! feed. The chunk counts as a hit when any of the lines is a positive signal.
//! Lines that are missing, because the output ended early, are negative.

use crate::confidence::{is_confident, parse_confidence_line};
use vstd::prelude::*;
use vstd::slice::slice_subrange;

verus! {

/// The number of lines with which the engine answers one chunk.
pub const RESPONSE_LINES: usize = 4;

/// The number of bytes before the first line feed, or the whole length where
/// there is none.
pub open spec fn line_len(s: Seq<u8>) -> nat
    decreases s.len(),
{
    if s.len() > 0 && s[0] != 10 {
        1 + line_len(s.skip(1))
    } else {
        0
    }
}

/// The text behind the first line and its line feed.
pub open spec fn after_line(s: Seq<u8>) -> Seq<u8> {
    if line_len(s) < s.len() {
        s.skip(line_len(s) as int + 1)
    } else {
        Seq::empty()
    }
}

/// Whether any of the first `lines` lines of `s` is a positive signal.
pub open spec fn any_confident(s: Seq<u8>, lines: nat) -> bool
    decreases lines,
{
    if lines == 0 {
        false
    } else {
        is_confident(s.take(line_len(s) as int)) || any_confident(
            after_line(s),
            (lines - 1) as nat,
        )
    }
}

/// Where the first line of a text ends.
pub proof fn lemma_line_len(s: Seq<u8>)
    ensures
        line_len(s) <= s.len(),
        line_len(s) < s.len() ==> s[line_len(s) as int] == 10,
        forall|i: int| 0 <= i < line_len(s) ==> #[trigger] s[i] != 10,
    decreases s.len(),
{
    if s.len() > 0 && s[0] != 10 {
        let rest = s.skip(1);
        lemma_line_len(rest);
        assert forall|i: int| 0 <= i < line_len(s) implies #[trigger] s[i] != 10 by {
            if i > 0 {
                assert(s[i] == rest[i - 1]);
            }
        }
        if line_len(s) < s.len() {
            assert(s[line_len(s) as int] == rest[line_len(rest) as int]);
        }
    }
}

/// A text without a line feed.
pub open spec fn is_line(line: Seq<u8>) -> bool {
    forall|i: int| 0 <= i < line.len() ==> #[trigger] line[i] != 10
}

/// The given lines as one text, each ended by a line feed.
pub open spec fn joined_lines(lines: Seq<Seq<u8>>) -> Seq<u8>
    decreases lines.len(),
{
    if lines.len() == 0 {
        Seq::empty()
    } else {
        lines[0] + seq![10u8] + joined_lines(lines.skip(1))
    }
}

/// A line in front of a text, with its line feed, is the first line of the
/// whole, and the text is what comes after it.
pub proof fn lemma_first_line(line: Seq<u8>, rest: Seq<u8>)
    requires
        is_line(line),
    ensures
        line_len(line + seq![10u8] + rest) == line.len(),
        (line + seq![10u8] + rest).take(line.len() as int) == line,
        after_line(line + seq![10u8] + rest) == rest,
    decreases line.len(),
{
    let whole = line + seq![10u8] + rest;
    if line.len() == 0 {
        assert(whole[0] == 10);
    } else {
        let tail = line.skip(1);
        assert(whole[0] == line[0]);
        assert forall|i: int| 0 <= i < tail.len() implies #[trigger] tail[i] != 10 by {
            assert(tail[i] == line[i + 1]);
        }
        lemma_first_line(tail, rest);
        assert(whole.skip(1) =~= tail + seq![10u8] + rest);
    }
    assert(whole.take(line.len() as int) =~= line);
    assert(whole.skip(line.len() as int + 1) =~= rest);
}

/// The verdict on an answer is the logical or over its first lines: where the
/// engine wrote at least as many lines as are read, the answer is a hit exactly
/// when one of the lines that are read is a positive signal. What the engine
/// wrote behind them does not count.
pub proof fn lemma_or_over_lines(lines: Seq<Seq<u8>>, rest: Seq<u8>, count: nat)
    requires
        count <= lines.len(),
        forall|i: int| 0 <= i < lines.len() ==> is_line(#[trigger] lines[i]),
    ensures
        any_confident(joined_lines(lines) + rest, count) <==> exists|i: int|
            0 <= i < count && is_confident(#[trigger] lines[i]),
    decreases count,
{
    if count > 0 {
        let later = lines.skip(1);
        let after = joined_lines(later) + rest;
        let whole = joined_lines(lines) + rest;
        assert(whole =~= lines[0] + seq![10u8] + after);
        lemma_first_line(lines[0], after);
        assert forall|i: int| 0 <= i < later.len() implies is_line(#[trigger] later[i]) by {
            assert(later[i] == lines[i + 1]);
        }
        lemma_or_over_lines(later, rest, (count - 1) as nat);
        if any_confident(whole, count) {
            if is_confident(lines[0]) {
            } else {
                let i = choose|i: int| 0 <= i < count - 1 && is_confident(#[trigger] later[i]);
                assert(later[i] == lines[i + 1]);
                assert(is_confident(lines[i + 1]));
            }
        }
        if exists|i: int| 0 <= i < count && is_confident(#[trigger] lines[i]) {
            let i = choose|i: int| 0 <= i < count && is_confident(#[trigger] lines[i]);
            if i > 0 {
                assert(later[i - 1] == lines[i]);
                assert(is_confident(later[i - 1]));
            }
        }
    }
}

fn measure_line(s: &[u8]) -> (n: usize)
    ensures
        n == line_len(s@),
        n <= s@.len(),
{
    let mut i: usize = 0;
    proof {
        assert(s@.skip(0) =~= s@);
    }
    while i < s.len() && s[i] != 10
        invariant
            i <= s@.len(),
            line_len(s@) == i + line_len(s@.skip(i as int)),
        decreases s@.len() - i,
    {
        proof {
            assert(s@.skip(i as int)[0] == s@[i as int]);
            assert(s@.skip(i as int).skip(1) =~= s@.skip(i + 1));
        }
        i = i + 1;
    }
    proof {
        if i < s@.len() {
            assert(s@.skip(i as int)[0] == s@[i as int]);
        }
    }
    i
}

/// Whether the engine's answer to one chunk reports the wakeword: the logical
/// or over its first lines, as many as the engine writes per chunk.
pub fn score_response(response: &[u8]) -> (heard: bool)
    ensures
        heard == any_confident(response@, RESPONSE_LINES as nat),
{
    let mut heard: bool = false;
    let mut text: &[u8] = response;
    let mut line: usize = 0;
    while line < RESPONSE_LINES
        invariant
            line <= RESPONSE_LINES,
            any_confident(response@, RESPONSE_LINES as nat) == (heard || any_confident(
                text@,
                (RESPONSE_LINES - line) as nat,
            )),
        decreases RESPONSE_LINES - line,
    {
        let len: usize = measure_line(text);
        let confident: bool = parse_confidence_line(slice_subrange(text, 0, len));
        heard = heard || confident;
        if len < text.len() {
            text = slice_subrange(text, len + 1, text.len());
        } else {
            text = slice_subrange(text, len, text.len());
            proof {
                assert(text@ =~= Seq::<u8>::empty());
            }
        }
        line = line + 1;
    }
    heard
}

} // verus!
