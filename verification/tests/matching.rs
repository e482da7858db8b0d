use grep_matcher::search::match_pattern;

#[test]
fn digits_1() {
    assert_eq!(match_pattern("aaaa", r"\d"), false);
}

#[test]
fn digits_2() {
    assert_eq!(match_pattern("111", r"\d"), true);
}

#[test]
fn alpha_num_3() {
    assert_eq!(match_pattern("aaa11", r"\d"), true);
}

#[test]
fn alpha_num_1() {
    assert_eq!(match_pattern("a1", r"\w"), true);
}

#[test]
fn alpha_num_2() {
    assert_eq!(match_pattern("?!?", r"\w"), false);
}

#[test]
fn alpha_num_4() {
    assert_eq!(match_pattern("abc1xyz", r"abc\dxyz"), true);
}

#[test]
fn alpha_num_5() {
    assert_eq!(match_pattern("abchxyz", r"abc\dxyz"), false);
}

#[test]
fn positive_char_group_1() {
    assert_eq!(match_pattern("a", "[bbabb]"), true);
}

#[test]
fn positive_char_group_2() {
    assert_eq!(match_pattern("a", "[bbbb]"), false);
}

#[test]
fn negative_char_group() {
    assert_eq!(match_pattern("aaa", "[^bbc]"), true);
}

#[test]
fn negative_char_group_1() {
    assert_eq!(match_pattern("aaaa", "[^abb]"), false);
}

#[test]
fn combine_character_class() {
    assert_eq!(match_pattern("aaaa", r"\w\w\d azeaz"), false);
}

#[test]
fn combine_character_class_1() {
    assert_eq!(match_pattern("aaaa", r"\w\w\dazeaz"), false);
}

#[test]
fn combine_character_class_2() {
    assert_eq!(match_pattern("aaaa", r"\d\d\wdazeaz\w\d"), false);
}

#[test]
fn combine_character_class_3() {
    assert_eq!(match_pattern("11XaaC2", r"\d\d\waa\w\d"), true);
}

#[test]
fn combine_character_class_4() {
    assert_eq!(match_pattern("Xx6azeaz", r"\w\w\dazeaz"), true);
}

#[test]
fn starting_pattern() {
    assert_eq!(match_pattern("abcooo", r"^abc"), true);
}

#[test]
fn starting_pattern_1() {
    assert_eq!(match_pattern("1abcXx6azeaz", r"^\dabc"), true);
}

#[test]
fn starting_pattern_2() {
    assert_eq!(match_pattern("XabcXx6azeaz", r"^\wabc"), true);
}

#[test]
fn starting_pattern_3() {
    assert_eq!(match_pattern("XabcXx6azeaz", r"^\wxabc"), false);
}

#[test]
fn starting_pattern_4() {
    assert_eq!(match_pattern("1XabcXx6azeaz", r"^\wyabc"), false);
}

#[test]
fn starting_pattern_5() {
    assert_eq!(match_pattern("abcooo", r"^dabc"), false);
}

#[test]
fn ending_pattern() {
    assert_eq!(match_pattern("abc", r"abc$"), true);
}

#[test]
fn ending_pattern_1() {
    assert_eq!(match_pattern("abcooo", r"abc$"), false);
}

#[test]
fn ending_pattern_2() {
    assert_eq!(match_pattern("abcX", r"\w$"), true);
}

#[test]
fn ending_pattern_3() {
    assert_eq!(match_pattern("abcooo?", r"\w$"), false);
}

#[test]
fn ending_pattern_4() {
    assert_eq!(match_pattern("abc1", r"\d$"), true);
}

#[test]
fn ending_pattern_5() {
    assert_eq!(match_pattern("abcooo", r"\d$"), false);
}

#[test]
fn ending_pattern_6() {
    assert_eq!(match_pattern("abcooo", r"[oax]$"), true);
}

#[test]
fn ending_pattern_7() {
    assert_eq!(match_pattern("vvvvvx", r"[oax]$"), true);
}

#[test]
fn ending_pattern_8() {
    assert_eq!(match_pattern("abcozb", r"[oax]$"), false);
}

#[test]
fn one_or_more() {
    assert_eq!(match_pattern("aav3bf", r"aav\d+bf"), true);
}

#[test]
fn one_or_more_1() {
    assert_eq!(match_pattern("aav333bf", r"aav\d+bf"), true);
}

#[test]
fn one_or_more_2() {
    assert_eq!(match_pattern("aavbf", r"aav\d+bf"), false);
}

#[test]
fn one_or_more_3() {
    assert_eq!(match_pattern("aavbf", r"aav+bf"), true);
}

#[test]
fn one_or_more_4() {
    assert_eq!(match_pattern("aavvvvvbf", r"aav+bf"), true);
}

#[test]
fn one_or_more_5() {
    assert_eq!(match_pattern("aabf", r"aav+bf"), false);
}

#[test]
fn zero_or_more() {
    assert_eq!(match_pattern("aav3bf", r"aav\d*bf"), true);
}

#[test]
fn zerp_or_more_1() {
    assert_eq!(match_pattern("aav333bf", r"aav\d*bf"), true);
}

#[test]
fn zerp_or_more_2() {
    assert_eq!(match_pattern("aavbf", r"aav\d*bf"), true);
}

#[test]
fn zerp_or_more_3() {
    assert_eq!(match_pattern("aavbf", r"aav*bf"), true);
}

#[test]
fn zerp_or_more_4() {
    assert_eq!(match_pattern("aavvvvvbf", r"aav*bf"), true);
}

#[test]
fn zerp_or_more_5() {
    assert_eq!(match_pattern("aabf", r"aav*bf"), true);
}

#[test]
fn zerp_or_more_6() {
    assert_eq!(match_pattern("aa2bf", r"aav*bf"), false);
}

#[test]
fn zerp_or_more_7() {
    assert_eq!(match_pattern("aabbf", r"aa\d*bf"), false);
}

#[test]
fn zerp_or_more_8() {
    assert_eq!(match_pattern("c", r"v*"), true);
}

#[test]
fn zerp_or_more_9() {
    assert_eq!(match_pattern("2", r"v*\d"), true);
}

#[test]
fn zerp_or_more_10() {
    assert_eq!(match_pattern("c", r"abv*"), false);
}

#[test]
fn zerp_or_more_11() {
    assert_eq!(match_pattern("?????", r"abv"), false);
}

#[test]
fn zerp_or_one() {
    assert_eq!(match_pattern("a", r"\d?"), true);
}

#[test]
fn zerp_or_one_1() {
    assert_eq!(match_pattern("abcv", r"ab\d?v"), false);
}

#[test]
fn wildcard() {
    assert_eq!(match_pattern("abc", r"."), true);
}

#[test]
fn wildcard_1() {
    assert_eq!(match_pattern("abc", r"a.c"), true);
}

#[test]
fn wildcard_2() {
    assert_eq!(match_pattern("abc", r"a.b"), false);
}

#[test]
fn wildcard_3() {
    assert_eq!(match_pattern("azerverbc", r"a.+c"), true);
}

#[test]
fn wildcard_4() {
    assert_eq!(match_pattern("azerverb2", r"a.+c"), false);
}

#[test]
fn alternation() {
    assert_eq!(match_pattern("abc", r"abc|xyz"), true);
}

#[test]
fn alternation_1() {
    assert_eq!(match_pattern("xyz", r"abc|xyz"), true);
}

#[test]
fn alternation_2() {
    assert_eq!(match_pattern("jhk", r"abc|xyz"), false);
}

#[test]
fn alternation_3() {
    assert_eq!(match_pattern("ab", r"abc|xyz\w"), false);
}

#[test]
fn alternation_4() {
    assert_eq!(match_pattern("2", r"abc|\d"), true);
}

#[test]
fn alternation_5() {
    assert_eq!(match_pattern("a", r"a (cat|dog)"), false);
}

#[test]
fn alternation_6() {
    assert_eq!(match_pattern("cat", r"a (cat|dog)"), false);
}

#[test]
fn alternation_7() {
    assert_eq!(match_pattern("a cat", r"a (cat|dog)"), true);
}

#[test]
fn alternation_8() {
    assert_eq!(match_pattern("a dog", r"a (cat|dog)"), true);
}

#[test]
fn alternation_10() {
    assert_eq!(match_pattern("dogs", r"(cat|dog)s"), true);
}

#[test]
fn alternation_11() {
    assert_eq!(match_pattern("kittys", r"(kitty|dog)s"), true);
}

#[test]
fn alternation_9() {
    assert_eq!(match_pattern("dog", r"a (cat|dog)"), false);
}

#[test]
fn backreference() {
    assert_eq!(match_pattern("dog and dog", r"(dog) and \1"), true);
}

#[test]
fn backreference_1() {
    assert_eq!(match_pattern("dog and cat", r"(dog) and \1"), false);
}

#[test]
fn backreference_2() {
    assert_eq!(
        match_pattern(
            "$?! 101 is doing $?! 101 times",
            r"(\w\w\w \d\d\d) is doing \1 times"
        ),
        false
    );
}

#[test]
fn backreference_3() {
    assert_eq!(
        match_pattern(
            "ZZZ 101 is doing ZZZ 101 times",
            r"(\w\w\w \d\d\d) is doing \1 times"
        ),
        true
    );
}

#[test]
fn backreference_4() {
    assert_eq!(
        match_pattern("abcd is abcd, not efg", r"([abcd]+) is \1, not [^xyz]+"),
        true
    );
}

#[test]
fn backreference_5() {
    assert_eq!(
        match_pattern(
            "abcd is abcd, and xyzz is xyzz",
            r"([abcd]+) is \1, and ([xyz]+) is \2"
        ),
        true
    );
}

#[test]
fn backreference_6() {
    assert_eq!(
        match_pattern(
            "this starts and ends with this",
            r"^(\w+) starts and ends with \1$"
        ),
        true
    );
}

#[test]
fn backreference_7() {
    assert_eq!(
        match_pattern(
            "this starts and ends with this?",
            r"^(\w+) starts and ends with \1$"
        ),
        false
    );
}

#[test]
fn backreference_8() {
    assert_eq!(
        match_pattern("bugs here and bugs there", r"(b..s|c..e) here and \1 there"),
        true
    );
}

#[test]
fn backreference_9() {
    assert_eq!(
        match_pattern(
            "3 red squares and 4 red circles",
            r"(\d+) (\w+) squares and \1 \2 circles"
        ),
        false
    );
}

#[test]
fn backreference_10() {
    assert_eq!(
        match_pattern(
            "cat and cat' is the same as 'cat and cat'",
            r"('(cat) and \2') is the same as \1"
        ),
        false
    );
}

#[test]
fn backreference_11() {
    assert_eq!(
        match_pattern(
            "'cat and cat' is the same as 'cat and dog'",
            r"('(cat) and \2') is the same as \1"
        ),
        false
    );
}

#[test]
fn backreference_12() {
    assert_eq!(
        match_pattern(
            "$?! 101 is doing $?! 101 times, and again $?! 101 times",
            r"((\w\w\w) (\d\d\d)) is doing \2 \3 times, and again \1 times"
        ),
        false
    );
}

#[test]
fn backreference_13() {
    assert_eq!(
        match_pattern(
            "abc-def is abc-def, not efg, abc, or def",
            r"(([abc]+)-([def]+)) is \1, not ([^xyz]+), \2, or \3"
        ),
        true
    );
}

#[test]
fn backreference_14() {
    assert_eq!(
        match_pattern(
            "apple pie is made of apple and pie. love apple pie",
            r"^((\w+) (\w+)) is made of \2 and \3. love \1$"
        ),
        true
    );
}

#[test]
fn backreference_15() {
    assert_eq!(
        match_pattern(
            "cat and fish, cat with fish, cat and fish",
            r"((c.t|d.g) and (f..h|b..d)), \2 with \3, \1"
        ),
        true
    );
}

#[test]
fn backreference_16() {
    assert_eq!(
        match_pattern(
            "lui and fish, lui with fish, lui and fish",
            r"((c.t|d.g|l.l) and (f..h|b..d)), \2 with \3, \1"
        ),
        false
    );
}

#[test]
fn backreference_17() {
    assert_eq!(
        match_pattern(
            "lol and fish, lol with fish, lol and fish",
            r"((c.t|d.g|l.l) and (f..h|b..d)), \2 with \3, \1"
        ),
        true
    );
}

#[test]
fn groups() {
    assert_eq!(match_pattern("abcafg", r"(abc)(afg)"), true);
}

#[test]
fn groups_1() {
    assert_eq!(match_pattern("abcWafg", r"(abc\w)(afg)"), true);
}

#[test]
fn groups_2() {
    assert_eq!(match_pattern("abcKafgafgafg", r"(abc\w)(afg)+"), true);
}

#[test]
fn groups_3() {
    assert_eq!(match_pattern("abcjkiabcjki", r"(abc(jki))+"), true);
}

#[test]
fn groups_4() {
    assert_eq!(match_pattern("abcjkihihi", r"(abc(jki(hihi)))"), true);
}

#[test]
fn groups_5() {
    assert_eq!(match_pattern("abcjkihihi5", r"(abc(jki(hihi)))+\d"), true);
}
