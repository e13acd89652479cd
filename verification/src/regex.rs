//! The matcher: a recursive backtracking search over a pattern and a text,
//! both plain byte sequences, together with the spec-level semantics it is
//! proved against.

use vstd::prelude::*;

verus! {

/// One pattern byte against one text byte: `.` matches any byte, every
/// other byte matches only itself.
pub open spec fn byte_matches(p: u8, t: u8) -> bool {
    p == '.' as u8 || p == t
}

/// Does `pattern` match a prefix of `text`, starting exactly at the start
/// of `text`?
///
/// An empty pattern always matches. A `$` that is the whole remaining
/// pattern demands that the text be exhausted; a `$` anywhere else is a
/// literal. A byte followed by `*` matches zero or more repetitions of
/// that byte. Otherwise the first pattern byte must match the first text
/// byte and the rest must match the rest. A `^` has no special meaning
/// here: anchoring is resolved by `spec_matches` before this is consulted.
pub open spec fn match_at(pattern: Seq<u8>, text: Seq<u8>) -> bool
    decreases pattern.len(), 0int,
{
    if pattern.len() == 0 {
        true
    } else if pattern.len() == 1 && pattern[0] == '$' as u8 {
        text.len() == 0
    } else if pattern.len() >= 2 && pattern[1] == '*' as u8 {
        repeat_match_at(pattern[0], pattern.skip(2), text)
    } else {
        text.len() > 0 && byte_matches(pattern[0], text[0]) && match_at(
            pattern.skip(1),
            text.skip(1),
        )
    }
}

/// Zero or more leading text bytes each matching `rep`, followed by a
/// match of `pattern` against whatever remains.
pub open spec fn repeat_match_at(rep: u8, pattern: Seq<u8>, text: Seq<u8>) -> bool
    decreases pattern.len(), 1int,
{
    exists|n: int|
        0 <= n <= text.len() && (forall|j: int| 0 <= j < n ==> byte_matches(rep, #[trigger] text[j]))
            && match_at(pattern, #[trigger] text.skip(n))
}

/// Does `pattern` match anywhere in `text`? A pattern starting with `^`
/// is tried at offset 0 only, with the `^` stripped; any other pattern is
/// tried at every offset from 0 through `text.len()` inclusive.
pub open spec fn spec_matches(pattern: Seq<u8>, text: Seq<u8>) -> bool {
    if pattern.len() > 0 && pattern[0] == '^' as u8 {
        match_at(pattern.skip(1), text)
    } else {
        exists|i: int| 0 <= i <= text.len() && match_at(pattern, #[trigger] text.skip(i))
    }
}

/// Matches input text against the provided regular expression pattern.
/// An empty pattern matches any text.
///
/// The following bytes are special in a pattern:
/// * `.` : wildcard; matches any byte
/// * `^` : begin; as the first pattern byte, matches only at the start of the text
/// * `$` : end; as the last pattern byte, matches only at the end of the text
/// * `*` : repeat; matches the previous byte zero or more times
///
/// Every other byte, and each of these outside the position that gives it
/// meaning, matches itself.
pub fn matches(pattern: &[u8], text: &[u8]) -> (found: bool)
    ensures
        found == spec_matches(pattern@, text@),
{
    if !pattern.is_empty() && pattern[0] == '^' as u8 {
        return match_position(&pattern[1..pattern.len()], text);
    }
    let mut i: usize = 0;
    loop
        invariant
            0 <= i <= text@.len(),
            pattern@.len() == 0 || pattern@[0] != '^' as u8,
            forall|j: int| 0 <= j < i ==> !match_at(pattern@, #[trigger] text@.skip(j)),
        decreases text@.len() - i,
    {
        if match_position(pattern, &text[i..text.len()]) {
            assert(match_at(pattern@, text@.skip(i as int)));
            return true;
        }
        if i == text.len() {
            assert(forall|j: int|
                0 <= j <= text@.len() ==> !match_at(pattern@, #[trigger] text@.skip(j)));
            return false;
        }
        i = i + 1;
    }
}

/// Does `pattern` match a prefix of `text` at this exact position?
fn match_position(pattern: &[u8], text: &[u8]) -> (found: bool)
    ensures
        found == match_at(pattern@, text@),
    decreases pattern@.len(), 0int,
{
    if pattern.is_empty() {
        return true;
    }
    if pattern[0] == '$' as u8 && pattern.len() == 1 {
        return text.is_empty();
    }
    if pattern.len() >= 2 && pattern[1] == '*' as u8 {
        return match_repeat(pattern[0], &pattern[2..pattern.len()], text);
    }
    if !text.is_empty() && (pattern[0] == '.' as u8 || pattern[0] == text[0]) {
        return match_position(&pattern[1..pattern.len()], &text[1..text.len()]);
    }
    false
}

/// Greedy backtracking search: try a match of `pattern` after zero
/// repetitions of `repeat`, then after one more, and so on, stopping as
/// soon as the next text byte can no longer count as a repetition.
fn match_repeat(repeat: u8, pattern: &[u8], text: &[u8]) -> (found: bool)
    ensures
        found == repeat_match_at(repeat, pattern@, text@),
    decreases pattern@.len(), 1int,
{
    let mut i: usize = 0;
    loop
        invariant
            0 <= i <= text@.len(),
            forall|j: int| 0 <= j < i ==> byte_matches(repeat, #[trigger] text@[j]),
            forall|n: int| 0 <= n < i ==> !match_at(pattern@, #[trigger] text@.skip(n)),
        decreases text@.len() - i,
    {
        if match_position(pattern, &text[i..text.len()]) {
            assert(match_at(pattern@, text@.skip(i as int)));
            return true;
        }
        if i == text.len() {
            assert forall|n: int|
                !(0 <= n <= text@.len() && (forall|j: int|
                    0 <= j < n ==> byte_matches(repeat, #[trigger] text@[j])) && match_at(
                    pattern@,
                    #[trigger] text@.skip(n),
                )) by {
                if 0 <= n <= text@.len() {
                    assert(!match_at(pattern@, text@.skip(n)));
                }
            }
            return false;
        }
        if repeat != text[i] && repeat != '.' as u8 {
            assert(!byte_matches(repeat, text@[i as int]));
            assert forall|n: int|
                !(0 <= n <= text@.len() && (forall|j: int|
                    0 <= j < n ==> byte_matches(repeat, #[trigger] text@[j])) && match_at(
                    pattern@,
                    #[trigger] text@.skip(n),
                )) by {
                if i < n <= text@.len() {
                    assert(!byte_matches(repeat, text@[i as int]));
                }
            }
            return false;
        }
        i = i + 1;
    }
}

} // verus!
