use simple_regex::regex;

#[test]
fn match_identifies_empty_pattern_as_match() {
    let pattern = b"";
    let text = b"012345678910abcdefghijklmnopqrstuvwxyz";
    let found = regex::matches(pattern, text);
    assert!(found);
}

#[test]
fn match_correctly_detects_pattern_in_text() {
    let pattern = b"abc";
    let text = b"012345678910abcdefghijklmnopqrstuvwxyz";
    let found = regex::matches(pattern, text);
    assert!(found);
}

#[test]
fn match_correctly_detects_pattern_not_in_text() {
    let pattern = b"abc";
    let text = b"012345678910bcdefghijklmnopqrstuvwxyz";
    let found = regex::matches(pattern, text);
    assert!(!found);
}

#[test]
fn match_correctly_matches_wildcard_in_text() {
    let pattern = b".bc";
    let text = b"012345678910abcdefghijklmnopqrstuvwxyz";
    let found = regex::matches(pattern, text);
    assert!(found);
}

#[test]
fn match_correctly_matches_at_beginning_of_text() {
    let pattern = b"^abc";
    let text = b"abcdefghijklmnopqrstuvwxyz";
    let found = regex::matches(pattern, text);
    assert!(found);
}

#[test]
fn match_correctly_matches_at_beginning_of_text_only() {
    let pattern = b"^";
    let text = b"abcdefghijklmnopqrstuvwxyz";
    let found = regex::matches(pattern, text);
    assert!(found);
}

#[test]
fn match_correctly_matches_at_end_of_text() {
    let pattern = b"abc$";
    let text = b"012345678910abc";
    let found = regex::matches(pattern, text);
    assert!(found);
}

#[test]
fn match_correctly_matches_at_end_of_text_only() {
    let pattern = b"$";
    let text = b"012345678910abc";
    let found = regex::matches(pattern, text);
    assert!(found);
}

#[test]
fn match_correctly_matches_repeater() {
    let pattern = b"ab*c";
    let text = b"abbbc";
    let found = regex::matches(pattern, text);
    assert!(found);
}

#[test]
fn match_correctly_matches_repeater_at_end() {
    let pattern = b"abc*";
    let text = b"abbb";
    let found = regex::matches(pattern, text);
    assert!(found);
}

#[test]
fn empty_pattern_matches_any_text() {
    assert!(regex::matches(b"", b"anything"));
}

#[test]
fn empty_pattern_matches_empty_text() {
    assert!(regex::matches(b"", b""));
}

#[test]
fn literal_pattern_found_in_middle() {
    assert!(regex::matches(b"abc", b"xxabcxx"));
}

#[test]
fn literal_pattern_absent_from_text() {
    assert!(!regex::matches(b"abc", b"xxabxx"));
}

#[test]
fn wildcard_matches_any_single_byte() {
    assert!(regex::matches(b".bc", b"xxabcxx"));
    assert!(regex::matches(b".bc", b"xxzbcxx"));
}

#[test]
fn wildcard_needs_a_byte_to_consume() {
    assert!(!regex::matches(b".", b""));
}

#[test]
fn start_anchor_matches_at_offset_zero() {
    assert!(regex::matches(b"^abc", b"abcxyz"));
}

#[test]
fn start_anchor_rejects_later_offsets() {
    assert!(!regex::matches(b"^abc", b"xabc"));
}

#[test]
fn end_anchor_matches_suffix() {
    assert!(regex::matches(b"abc$", b"xxabc"));
}

#[test]
fn end_anchor_rejects_interior_match() {
    assert!(!regex::matches(b"abc$", b"abcxx"));
}

#[test]
fn both_anchors_on_empty_text() {
    assert!(regex::matches(b"^$", b""));
    assert!(!regex::matches(b"^$", b"a"));
}

#[test]
fn repeater_matches_several_repetitions() {
    assert!(regex::matches(b"ab*c", b"abbbc"));
}

#[test]
fn repeater_matches_zero_repetitions() {
    assert!(regex::matches(b"ab*c", b"ac"));
}

#[test]
fn repeater_stops_at_mismatch() {
    assert!(!regex::matches(b"ab*c", b"abbd"));
}

#[test]
fn trailing_repeater_consumes_nothing() {
    assert!(regex::matches(b"abc*", b"ab"));
}

#[test]
fn wildcard_repeater_spans_arbitrary_bytes() {
    assert!(regex::matches(b"a.*c", b"azzzc"));
    assert!(regex::matches(b".*", b"whatever"));
    assert!(regex::matches(b".*", b""));
}

#[test]
fn repeater_pattern_inside_longer_text() {
    assert!(regex::matches(b"xc*y", b"zzxcccyzz"));
    assert!(regex::matches(b"xc*y", b"zzxyzz"));
    assert!(!regex::matches(b"xc*y", b"zzxczz"));
}

#[test]
fn dollar_in_the_middle_is_a_literal() {
    assert!(regex::matches(b"a$b", b"xa$bz"));
    assert!(!regex::matches(b"a$b", b"ab"));
}

#[test]
fn caret_past_the_start_is_a_literal() {
    assert!(regex::matches(b"a^b", b"za^bz"));
    assert!(!regex::matches(b"a^b", b"zabz"));
}

#[test]
fn dollar_alone_matches_empty_text() {
    assert!(regex::matches(b"$", b""));
}
