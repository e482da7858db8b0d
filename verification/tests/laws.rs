use grep_matcher::search::match_pattern;

#[test]
fn plain_text_found_in_the_middle() {
    assert_eq!(match_pattern("hello world", "lo w"), true);
}

#[test]
fn plain_text_not_found() {
    assert_eq!(match_pattern("abcabc", "abd"), false);
}

#[test]
fn plain_text_longer_than_input() {
    assert_eq!(match_pattern("ab", "abc"), false);
}

#[test]
fn plain_text_at_the_very_end() {
    assert_eq!(match_pattern("xxxyz", "yz"), true);
}

#[test]
fn anchored_start_matches_prefix() {
    assert_eq!(match_pattern("abcdef", "^abc"), true);
}

#[test]
fn anchored_start_rejects_later_occurrence() {
    assert_eq!(match_pattern("xabc", "^abc"), false);
}

#[test]
fn anchored_end_matches_suffix() {
    assert_eq!(match_pattern("xxabc", "abc$"), true);
}

#[test]
fn anchored_end_rejects_earlier_occurrence() {
    assert_eq!(match_pattern("abcx", "abc$"), false);
}

#[test]
fn empty_pattern_matches_any_input() {
    assert_eq!(match_pattern("anything", ""), true);
    assert_eq!(match_pattern("", ""), true);
}

#[test]
fn longer_pattern_matches_empty_input() {
    assert_eq!(match_pattern("", "abc"), true);
    assert_eq!(match_pattern("", r"\d+"), true);
}

#[test]
fn single_dot_needs_a_non_empty_input() {
    assert_eq!(match_pattern("", "."), false);
    assert_eq!(match_pattern("x", "."), true);
}

#[test]
fn single_character_is_looked_for() {
    assert_eq!(match_pattern("abc", "z"), false);
    assert_eq!(match_pattern("abc", "c"), true);
    assert_eq!(match_pattern("aé", "é"), true);
}

#[test]
fn same_result_on_every_call() {
    let a = match_pattern("abcd is abcd, not efg", r"([abcd]+) is \1, not [^xyz]+");
    let b = match_pattern("abcd is abcd, not efg", r"([abcd]+) is \1, not [^xyz]+");
    assert_eq!(a, b);
}

#[test]
fn digit_after_a_multibyte_character() {
    assert_eq!(match_pattern("é1", r"\d"), true);
}

#[test]
fn word_characters_include_underscore() {
    assert_eq!(match_pattern("__", r"\w\w"), true);
    assert_eq!(match_pattern("-_-", r"\w\w"), false);
}

#[test]
fn escape_of_an_ordinary_character_is_dropped() {
    assert_eq!(match_pattern("ab", r"\ab"), true);
}

#[test]
fn unclosed_bracket_is_dropped() {
    assert_eq!(match_pattern("xab", "[ab"), true);
}

#[test]
fn negated_group_at_the_end() {
    assert_eq!(match_pattern("ab", "a[^c]"), true);
    assert_eq!(match_pattern("ac", "a[^c]"), false);
}

#[test]
fn optional_literal_character() {
    assert_eq!(match_pattern("ac", "ab?c"), true);
    assert_eq!(match_pattern("abc", "ab?c"), true);
}

#[test]
fn three_way_alternation() {
    assert_eq!(match_pattern("dog", "cat|dog|cow"), true);
    assert_eq!(match_pattern("cow", "cat|dog|cow"), true);
    assert_eq!(match_pattern("pig", "cat|dog|cow"), false);
}

#[test]
fn alternative_group_runs_a_later_child_at_the_end_of_the_input() {
    assert_eq!(match_pattern("1", r"\dx|y"), false);
}

#[test]
fn alternative_group_fails_when_its_text_runs_past_the_end() {
    assert_eq!(match_pattern("12", r"\dx|y"), false);
}

#[test]
fn alternative_group_matches_when_all_children_match() {
    assert_eq!(match_pattern("1x", r"\dx|y"), true);
}

#[test]
fn right_alternative_matches() {
    assert_eq!(match_pattern("ay", r"\dx|y"), true);
}

#[test]
fn back_reference_matches_the_captured_text() {
    assert_eq!(match_pattern("cat and cat", r"(cat) and \1"), true);
}

#[test]
fn back_reference_fails_on_other_text() {
    assert_eq!(match_pattern("cat and dog", r"(cat) and \1"), false);
}

#[test]
fn two_word_alternation_either_side() {
    assert_eq!(match_pattern("a dog here", "cat|dog"), true);
    assert_eq!(match_pattern("a cat here", "cat|dog"), true);
    assert_eq!(match_pattern("a cow here", "cat|dog"), false);
}

#[test]
fn alternation_left_side_wins_when_both_match() {
    assert_eq!(match_pattern("ab", "a|ab"), true);
    assert_eq!(match_pattern("xyz", "q|z"), true);
}
