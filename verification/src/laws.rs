//! General properties of the matcher, stated over the spec-level
//! semantics and proved once and for all.

use vstd::prelude::*;
use crate::regex::{byte_matches, match_at, repeat_match_at, spec_matches};

verus! {

/// An empty pattern matches any text.
pub proof fn lemma_empty_pattern(text: Seq<u8>)
    ensures
        spec_matches(Seq::<u8>::empty(), text),
{
    assert(text.skip(0) =~= text);
    assert(match_at(Seq::<u8>::empty(), text.skip(0)));
}

/// The pattern uses none of the operator bytes `^`, `$` and `*`: every
/// byte is either a literal or the wildcard `.`.
pub open spec fn no_operators(pattern: Seq<u8>) -> bool {
    forall|i: int|
        0 <= i < pattern.len() ==> #[trigger] pattern[i] != '^' as u8 && pattern[i] != '$' as u8
            && pattern[i] != '*' as u8
}

/// The pattern lines up byte for byte against the window of `text` that
/// starts at offset `i`, under the wildcard-aware byte relation.
pub open spec fn window_matches(pattern: Seq<u8>, text: Seq<u8>, i: int) -> bool {
    &&& 0 <= i
    &&& i + pattern.len() <= text.len()
    &&& forall|j: int| 0 <= j < pattern.len() ==> byte_matches(pattern[j], #[trigger] text[i + j])
}

/// Some window of `text` lines up byte for byte against `pattern`.
pub open spec fn occurs(pattern: Seq<u8>, text: Seq<u8>) -> bool {
    exists|i: int| #[trigger] window_matches(pattern, text, i)
}

/// `pattern` stands, byte for byte equal, in `text` at offset `i`.
pub open spec fn substring_at(pattern: Seq<u8>, text: Seq<u8>, i: int) -> bool {
    &&& 0 <= i
    &&& i + pattern.len() <= text.len()
    &&& forall|j: int| 0 <= j < pattern.len() ==> #[trigger] text[i + j] == pattern[j]
}

/// `pattern` occurs, byte for byte equal, as a contiguous substring of
/// `text`.
pub open spec fn is_substring(pattern: Seq<u8>, text: Seq<u8>) -> bool {
    exists|i: int| #[trigger] substring_at(pattern, text, i)
}

/// For an operator-free pattern, a positional match is exactly a byte-for-
/// byte line-up against a prefix of the text.
proof fn lemma_match_at_no_operators(pattern: Seq<u8>, text: Seq<u8>)
    requires
        no_operators(pattern),
    ensures
        match_at(pattern, text) == (pattern.len() <= text.len() && (forall|j: int|
            0 <= j < pattern.len() ==> byte_matches(pattern[j], #[trigger] text[j]))),
    decreases pattern.len(),
{
    if pattern.len() == 0 {
    } else {
        assert(no_operators(pattern.skip(1))) by {
            assert forall|i: int| 0 <= i < pattern.skip(1).len() implies #[trigger] pattern.skip(
                1,
            )[i] != '^' as u8 && pattern.skip(1)[i] != '$' as u8 && pattern.skip(1)[i]
                != '*' as u8 by {
                assert(pattern.skip(1)[i] == pattern[i + 1]);
            }
        }
        lemma_match_at_no_operators(pattern.skip(1), text.skip(1));
        if match_at(pattern, text) {
            assert forall|j: int| 0 <= j < pattern.len() implies byte_matches(
                pattern[j],
                #[trigger] text[j],
            ) by {
                if j > 0 {
                    assert(byte_matches(pattern.skip(1)[j - 1], text.skip(1)[j - 1]));
                }
            }
        } else {
            if pattern.len() <= text.len() && (forall|j: int|
                0 <= j < pattern.len() ==> byte_matches(pattern[j], #[trigger] text[j])) {
                assert forall|j: int| 0 <= j < pattern.skip(1).len() implies byte_matches(
                    pattern.skip(1)[j],
                    #[trigger] text.skip(1)[j],
                ) by {
                    assert(byte_matches(pattern[j + 1], text[j + 1]));
                }
                assert(match_at(pattern, text));
            }
        }
    }
}

/// For a pattern with no `^`, `$` or `*`, a match is exactly an occurrence
/// of the pattern as a contiguous window of the text, byte for byte under
/// the wildcard relation.
pub proof fn lemma_no_operator_pattern(pattern: Seq<u8>, text: Seq<u8>)
    requires
        no_operators(pattern),
    ensures
        spec_matches(pattern, text) == occurs(pattern, text),
{
    if pattern.len() > 0 {
        assert(pattern[0] != '^' as u8);
    }
    if spec_matches(pattern, text) {
        let i = choose|i: int| 0 <= i <= text.len() && match_at(pattern, #[trigger] text.skip(i));
        lemma_match_at_no_operators(pattern, text.skip(i));
        assert forall|j: int| 0 <= j < pattern.len() implies byte_matches(
            pattern[j],
            #[trigger] text[i + j],
        ) by {
            assert(byte_matches(pattern[j], text.skip(i)[j]));
        }
        assert(window_matches(pattern, text, i));
    }
    if occurs(pattern, text) {
        let i = choose|i: int| #[trigger] window_matches(pattern, text, i);
        lemma_match_at_no_operators(pattern, text.skip(i));
        assert forall|j: int| 0 <= j < pattern.len() implies byte_matches(
            pattern[j],
            #[trigger] text.skip(i)[j],
        ) by {
            assert(byte_matches(pattern[j], text[i + j]));
        }
        assert(match_at(pattern, text.skip(i)));
    }
}

/// The pattern is made of literal bytes only: no operator byte and no
/// wildcard `.`.
pub open spec fn literals_only(pattern: Seq<u8>) -> bool {
    forall|i: int|
        0 <= i < pattern.len() ==> #[trigger] pattern[i] != '^' as u8 && pattern[i] != '$' as u8
            && pattern[i] != '*' as u8 && pattern[i] != '.' as u8
}

/// For a pattern made of literals only, a match is exactly an occurrence
/// of the pattern as a contiguous substring of the text.
pub proof fn lemma_literal_pattern(pattern: Seq<u8>, text: Seq<u8>)
    requires
        literals_only(pattern),
    ensures
        spec_matches(pattern, text) == is_substring(pattern, text),
{
    lemma_no_operator_pattern(pattern, text);
    if occurs(pattern, text) {
        let i = choose|i: int| #[trigger] window_matches(pattern, text, i);
        assert forall|j: int| 0 <= j < pattern.len() implies #[trigger] text[i + j]
            == pattern[j] by {
            assert(byte_matches(pattern[j], text[i + j]));
        }
        assert(substring_at(pattern, text, i));
    }
    if is_substring(pattern, text) {
        let i = choose|i: int| #[trigger] substring_at(pattern, text, i);
        assert(window_matches(pattern, text, i));
    }
}

/// Prefixing a pattern with `^` anchors it: the anchored pattern matches
/// the text exactly when the bare pattern matches at offset 0, and no
/// later offset is ever consulted.
pub proof fn lemma_anchored(pattern: Seq<u8>, text: Seq<u8>)
    ensures
        spec_matches(seq!['^' as u8] + pattern, text) == match_at(pattern, text),
{
    let anchored = seq!['^' as u8] + pattern;
    assert(anchored[0] == '^' as u8);
    assert(anchored.skip(1) =~= pattern);
}

/// `pattern` matches all of `text`, consuming it entirely. This is the
/// meaning a pattern takes on when a final `$` is appended to it: every
/// `$` inside the original pattern is then an ordinary literal, since it
/// is never the last remaining byte.
pub open spec fn match_exact(pattern: Seq<u8>, text: Seq<u8>) -> bool
    decreases pattern.len(),
{
    if pattern.len() == 0 {
        text.len() == 0
    } else if pattern.len() >= 2 && pattern[1] == '*' as u8 {
        exists|n: int|
            0 <= n <= text.len() && (forall|j: int|
                0 <= j < n ==> byte_matches(pattern[0], #[trigger] text[j])) && match_exact(
                pattern.skip(2),
                #[trigger] text.skip(n),
            )
    } else {
        text.len() > 0 && byte_matches(pattern[0], text[0]) && match_exact(
            pattern.skip(1),
            text.skip(1),
        )
    }
}

/// A positional match of `pattern` with `$` appended is exactly an exact
/// (text-consuming) match of `pattern`.
proof fn lemma_push_end_anchor(pattern: Seq<u8>, text: Seq<u8>)
    ensures
        match_at(pattern.push('$' as u8), text) == match_exact(pattern, text),
    decreases pattern.len(),
{
    let q = pattern.push('$' as u8);
    if pattern.len() == 0 {
        assert(q.len() == 1 && q[0] == '$' as u8);
    } else if pattern.len() >= 2 && pattern[1] == '*' as u8 {
        assert(q.skip(2) =~= pattern.skip(2).push('$' as u8));
        assert forall|n: int| 0 <= n <= text.len() implies match_at(
            q.skip(2),
            #[trigger] text.skip(n),
        ) == match_exact(pattern.skip(2), text.skip(n)) by {
            lemma_push_end_anchor(pattern.skip(2), text.skip(n));
        }
        assert(q[0] == pattern[0] && q[1] == '*' as u8);
        if repeat_match_at(q[0], q.skip(2), text) {
            let n = choose|n: int|
                0 <= n <= text.len() && (forall|j: int|
                    0 <= j < n ==> byte_matches(q[0], #[trigger] text[j])) && match_at(
                    q.skip(2),
                    #[trigger] text.skip(n),
                );
            assert(match_exact(pattern.skip(2), text.skip(n)));
        }
        if match_exact(pattern, text) {
            let n = choose|n: int|
                0 <= n <= text.len() && (forall|j: int|
                    0 <= j < n ==> byte_matches(pattern[0], #[trigger] text[j])) && match_exact(
                    pattern.skip(2),
                    #[trigger] text.skip(n),
                );
            assert(match_at(q.skip(2), text.skip(n)));
            assert(repeat_match_at(q[0], q.skip(2), text));
        }
    } else {
        assert(q[0] == pattern[0]);
        assert(q.len() >= 2);
        if pattern.len() >= 2 {
            assert(q[1] == pattern[1]);
        } else {
            assert(q[1] == '$' as u8);
        }
        assert(q.skip(1) =~= pattern.skip(1).push('$' as u8));
        lemma_push_end_anchor(pattern.skip(1), text.skip(1));
    }
}

/// Appending `$` to a pattern anchors it at the end: the extended pattern
/// matches the text exactly when some suffix of the text is matched
/// entirely by the bare pattern, ending at the very end of the text. The
/// pattern must not start with `^`, which would anchor the search to
/// offset 0 instead of scanning the suffixes.
pub proof fn lemma_end_anchor(pattern: Seq<u8>, text: Seq<u8>)
    requires
        pattern.len() == 0 || pattern[0] != '^' as u8,
    ensures
        spec_matches(pattern.push('$' as u8), text) == exists|i: int|
            0 <= i <= text.len() && match_exact(pattern, #[trigger] text.skip(i)),
{
    let q = pattern.push('$' as u8);
    if pattern.len() == 0 {
        assert(q[0] == '$' as u8);
    } else {
        assert(q[0] == pattern[0]);
    }
    assert forall|i: int| 0 <= i <= text.len() implies match_at(q, #[trigger] text.skip(i))
        == match_exact(pattern, text.skip(i)) by {
        lemma_push_end_anchor(pattern, text.skip(i));
    }
}

/// The wildcard byte `.` matches every byte.
pub proof fn lemma_wildcard_byte(b: u8)
    ensures
        byte_matches('.' as u8, b),
{
}

/// A pattern of the shape `x c* y` matches any text that contains the
/// byte `x`, then zero or more `c` bytes, then the byte `y`, contiguously
/// (here `x` at offset `i`, `n` repetitions of `c`, and `y` right after
/// them). `x` must not be `^` (which would anchor the search), `c` must
/// not be `*` (which would change how the pattern parses), and `y` must
/// not be `$` (which would anchor the match to the end of the text).
pub proof fn lemma_repetition(x: u8, c: u8, y: u8, text: Seq<u8>, i: int, n: int)
    requires
        x != '^' as u8,
        c != '*' as u8,
        y != '$' as u8,
        0 <= i,
        0 <= n,
        i + n + 2 <= text.len(),
        text[i] == x,
        forall|j: int| i < j < i + 1 + n ==> #[trigger] text[j] == c,
        text[i + 1 + n] == y,
    ensures
        spec_matches(seq![x, c, '*' as u8, y], text),
{
    let p = seq![x, c, '*' as u8, y];
    let t1 = text.skip(i);
    let t2 = text.skip(i + 1);
    let t3 = text.skip(i + 1 + n);
    assert(p.skip(1) =~= seq![c, '*' as u8, y]);
    assert(p.skip(1).skip(2) =~= seq![y]);
    assert(t1.skip(1) =~= t2);
    assert(t2.skip(n) =~= t3);
    assert(match_at(seq![y], t3)) by {
        assert(byte_matches(y, t3[0]));
        assert(seq![y].skip(1) =~= Seq::<u8>::empty());
        assert(match_at(seq![y].skip(1), t3.skip(1)));
    }
    assert(forall|j: int| 0 <= j < n ==> byte_matches(c, #[trigger] t2[j]));
    assert(repeat_match_at(c, p.skip(1).skip(2), t2));
    assert(match_at(p.skip(1), t1.skip(1)));
    assert(byte_matches(x, t1[0]));
    assert(match_at(p, text.skip(i)));
}

} // verus!
