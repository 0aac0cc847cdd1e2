use regex_engine::captures::CaptureState;
use regex_engine::matcher::match_pattern;
use regex_engine::matcher::match_string;
use regex_engine::parser::make_pattern;
use regex_engine::parser::ParseError;

fn cv(s: &str) -> Vec<char> {
    s.chars().collect()
}

fn search(pattern: &str, line: &str) -> bool {
    match_string(&cv(line), &cv(pattern)).unwrap()
}

fn search_with_captures(pattern: &str, line: &str) -> (bool, CaptureState) {
    let mut cs = CaptureState::new();
    let compiled = make_pattern(&cv(pattern), &mut cs).unwrap();
    let found = match_pattern(&cv(line), &compiled, &mut cs);
    (found, cs)
}

#[test]
fn literal_found_and_missing() {
    assert!(search("a", "banana"));
    assert!(!search("z", "banana"));
    assert!(search("+", "1+2"));
    assert!(!search("a", ""));
}

#[test]
fn digit_class() {
    assert!(search("\\d", "abc123"));
    assert!(!search("\\d", "abc"));
}

#[test]
fn digit_class_unicode() {
    // char::is_numeric accepts non-ASCII numerics such as the Arabic-Indic
    // digit; the compiled class must agree with it.
    assert!(search("\\d", "x\u{0661}y"));
}

#[test]
fn alnum_class() {
    assert!(search("\\w", "a!"));
    assert!(!search("\\w", "!!!"));
}

#[test]
fn negated_class() {
    assert!(!search("[^abc]", "cab"));
    assert!(search("[^abc]", "cat"));
}

#[test]
fn positive_class() {
    assert!(search("[abc]", "xxbxx"));
    assert!(!search("[abc]", "xyz"));
}

#[test]
fn class_with_inner_caret() {
    // Only a caret immediately after the opening bracket negates; a later
    // caret is an ordinary member of the class.
    assert!(search("[b^]", "x^y"));
    assert!(!search("[b^]", "xyz"));
}

#[test]
fn anchors_both_ends() {
    assert!(search("^abc$", "abc"));
    assert!(!search("^abc$", "xabc"));
    assert!(!search("^abc$", "abcx"));
}

#[test]
fn end_anchor_alone_matches_everywhere() {
    assert!(search("$", ""));
    assert!(search("$", "abc"));
}

#[test]
fn star_is_a_literal_not_a_quantifier() {
    assert!(!search("ca*t", "ct"));
    assert!(search("ca*t", "ca*t"));
}

#[test]
fn optional_quantifier() {
    assert!(search("ca?t", "ct"));
    assert!(search("ca?t", "cat"));
    assert!(!search("ca?t", "cbt"));
}

#[test]
fn optional_never_skips_at_line_end() {
    // A trailing optional atom still runs into the end-of-line check before
    // its quantifier is consulted, so it cannot match at the very end.
    assert!(!search("a?", ""));
    assert!(search("a?", "a"));
}

#[test]
fn group_alternation_matches_and_captures() {
    let (found, cs) = search_with_captures("(cat|dog)", "i have a dog");
    assert!(found);
    assert_eq!(cs.lookup(1), Some(cv("dog")));
}

#[test]
fn backreference_repeats_capture() {
    assert!(search("(\\w+) and \\1", "cat and cat"));
    assert!(!search("(\\w+) and \\1", "cat and dog"));
}

#[test]
fn backreference_without_capture_fails() {
    assert!(!search("\\1", "abc"));
}

#[test]
fn nested_groups_number_by_opening_order() {
    let (found, cs) = search_with_captures("((a)b)", "ab");
    assert!(found);
    assert_eq!(cs.lookup(1), Some(cv("ab")));
    assert_eq!(cs.lookup(2), Some(cv("a")));
}

#[test]
fn later_alternatives_not_retried_after_continuation_failure() {
    // Once an alternative's body matches, a failing continuation fails the
    // whole group; the second alternative is not attempted.
    assert!(!search("(a|ab)c", "abc"));
    assert!(search("(ab|a)c", "abc"));
}

#[test]
fn group_quantifier_reads_but_group_matches_once() {
    // A quantifier suffix after a group parses, but the group step returns
    // directly, so the group's body is consumed a single time.
    assert!(search("(ab)+", "xaby"));
    assert!(!search("(ab)+", "xay"));
    assert!(search("(ab)?c", "c"));
}

#[test]
fn captures_persist_after_failed_attempts() {
    // The capture table is shared across start offsets: a capture recorded
    // by an attempt whose continuation failed stays in the table.
    let (found, cs) = search_with_captures("(ab)x", "aby");
    assert!(!found);
    assert_eq!(cs.lookup(1), Some(cv("ab")));
}

#[test]
fn compile_twice_identical_results() {
    let pat = "(a|b)+c?";
    let inputs = ["", "a", "abba", "abbac", "xacx", "ccc"];
    for line in inputs.iter() {
        let first = search(pat, line);
        let second = search(pat, line);
        assert_eq!(first, second);
    }
}

#[test]
fn one_or_more_requires_consumption() {
    assert!(!search("a+", ""));
    assert!(search("a+", "aaa"));
}

#[test]
fn one_or_more_greedy_then_backtracks() {
    assert!(search("a+b", "aaab"));
    assert!(search("a+a", "aa"));
    assert!(!search("a+b", "b"));
}

#[test]
fn one_or_more_on_anchors_consumes_nothing() {
    // Anchors consume no characters, so greedy repetition of them is a
    // no-op rather than an endless loop.
    assert!(search("^+a", "a"));
    assert!(!search("^+a", "ba"));
    assert!(search("x$+", "x"));
}

#[test]
fn group_with_leading_bar_reads_a_literal_alternative() {
    // A `|` right after `(` is consumed as the first character of the first
    // alternative, so the group holds the single alternative `|a`.
    assert!(search("(|a)", "x|ay"));
    assert!(!search("(|a)", "a"));
}

#[test]
fn wildcard_consumes_one_character() {
    assert!(search(".", "x"));
    assert!(!search(".", ""));
    assert!(search("a.c", "abc"));
    assert!(!search("a.c", "ac"));
}

#[test]
fn empty_pattern_is_a_wildcard_node() {
    assert!(search("", "x"));
    assert!(!search("", ""));
}

#[test]
fn unterminated_group_is_rejected() {
    assert_eq!(
        match_string(&cv("abc"), &cv("(a")),
        Err(ParseError::MalformedGroup)
    );
    assert_eq!(
        match_string(&cv("abc"), &cv("(a|b")),
        Err(ParseError::MalformedGroup)
    );
}

#[test]
fn unterminated_class_is_rejected() {
    assert_eq!(
        match_string(&cv("abc"), &cv("[abc")),
        Err(ParseError::UnterminatedClass)
    );
}

#[test]
fn large_backreference_index_never_matches() {
    assert!(!search("\\99999999999999999999999", "abc"));
}

#[test]
fn combined_classes_and_anchor() {
    assert!(search("^\\d apple", "1 apple"));
    assert!(!search("^\\d apple", "x 1 apple"));
}
