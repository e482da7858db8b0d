use grep_matcher::compile::compile_pattern;
use grep_matcher::groups::{
    add_child_groupto_group, add_pattern_unit, find_and_push_to_alternation_group,
    first_alternation_group, push_to_group, CurrentAlternationInfo,
};
use grep_matcher::search::chars_of;
use grep_matcher::spacing::ending_pattern_last_spacing;
use grep_matcher::unit::{clone_unit, PatternUnit};

fn text(s: &str) -> PatternUnit {
    PatternUnit::PlainText(s.as_bytes().to_vec())
}

fn group(v: Vec<PatternUnit>) -> PatternUnit {
    PatternUnit::CapturingGroup(v)
}

#[test]
fn push_goes_to_the_innermost_last_group() {
    let mut g = group(vec![PatternUnit::Digit, group(vec![text("a")])]);
    push_to_group(&mut g, 1, 0, &PatternUnit::Wildcard);
    assert_eq!(
        g,
        group(vec![PatternUnit::Digit, group(vec![text("a"), PatternUnit::Wildcard])])
    );
}

#[test]
fn push_at_depth_zero_appends_to_the_group() {
    let mut g = group(vec![PatternUnit::Digit]);
    push_to_group(&mut g, 0, 0, &PatternUnit::AlphaNumeric);
    assert_eq!(g, group(vec![PatternUnit::Digit, PatternUnit::AlphaNumeric]));
}

#[test]
fn push_below_a_non_group_changes_nothing() {
    let mut g = group(vec![PatternUnit::Digit]);
    push_to_group(&mut g, 1, 0, &PatternUnit::AlphaNumeric);
    assert_eq!(g, group(vec![PatternUnit::Digit]));
}

#[test]
fn new_child_group_is_opened() {
    let mut g = group(vec![text("x")]);
    add_child_groupto_group(&mut g, 0, 0);
    assert_eq!(g, group(vec![text("x"), group(vec![])]));
}

#[test]
fn first_alternation_moves_children_left() {
    let mut g = group(vec![group(vec![text("cat")])]);
    let mut info = CurrentAlternationInfo { group1: vec![], group2: vec![text("z")] };
    first_alternation_group(&mut g, 1, 0, &PatternUnit::Digit, &mut info);
    assert_eq!(g, group(vec![group(vec![])]));
    assert_eq!(info.group1, vec![text("cat")]);
    assert_eq!(info.group2, vec![text("z")]);
}

#[test]
fn finished_alternation_goes_to_the_group() {
    let mut g = group(vec![]);
    let mut info = CurrentAlternationInfo { group1: vec![], group2: vec![] };
    let alt = PatternUnit::Alternation((
        Box::new(PatternUnit::NonCapturingGroup(vec![text("a")])),
        Box::new(PatternUnit::NonCapturingGroup(vec![text("b")])),
    ));
    find_and_push_to_alternation_group(&mut g, 0, 0, &alt, &mut info);
    assert_eq!(g, group(vec![clone_unit(&alt)]));
}

#[test]
fn unit_outside_groups_goes_to_the_top_level() {
    let mut is_alternation = false;
    let mut parts = vec![PatternUnit::Digit];
    let mut g = group(vec![]);
    let mut info = CurrentAlternationInfo { group1: vec![], group2: vec![] };
    let mut first = false;
    add_pattern_unit(
        &mut is_alternation,
        PatternUnit::Wildcard,
        &mut parts,
        -1,
        -1,
        &mut g,
        &mut info,
        &mut first,
    );
    assert_eq!(parts, vec![PatternUnit::Digit, PatternUnit::Wildcard]);
    assert_eq!(g, group(vec![]));
}

#[test]
fn first_unit_after_bar_moves_the_top_level_left() {
    let mut is_alternation = true;
    let mut parts = vec![text("abc")];
    let mut g = group(vec![]);
    let mut info = CurrentAlternationInfo { group1: vec![], group2: vec![] };
    let mut first = true;
    add_pattern_unit(
        &mut is_alternation,
        text("xyz"),
        &mut parts,
        -1,
        -1,
        &mut g,
        &mut info,
        &mut first,
    );
    assert_eq!(parts, vec![]);
    assert_eq!(info.group1, vec![text("abc")]);
    assert_eq!(info.group2, vec![text("xyz")]);
    assert_eq!(first, false);
    assert_eq!(is_alternation, true);
}

#[test]
fn later_units_after_bar_go_right() {
    let mut is_alternation = true;
    let mut parts = vec![];
    let mut g = group(vec![text("q")]);
    let mut info = CurrentAlternationInfo { group1: vec![text("a")], group2: vec![text("b")] };
    let mut first = false;
    add_pattern_unit(
        &mut is_alternation,
        PatternUnit::Digit,
        &mut parts,
        0,
        -1,
        &mut g,
        &mut info,
        &mut first,
    );
    assert_eq!(info.group2, vec![text("b"), PatternUnit::Digit]);
    assert_eq!(g, group(vec![text("q")]));
}

#[test]
fn unit_inside_a_group_goes_to_the_group() {
    let mut is_alternation = false;
    let mut parts = vec![];
    let mut g = group(vec![text("q")]);
    let mut info = CurrentAlternationInfo { group1: vec![], group2: vec![] };
    let mut first = false;
    add_pattern_unit(
        &mut is_alternation,
        PatternUnit::Digit,
        &mut parts,
        0,
        -1,
        &mut g,
        &mut info,
        &mut first,
    );
    assert_eq!(g, group(vec![text("q"), PatternUnit::Digit]));
    assert_eq!(parts, vec![]);
}

#[test]
fn spacing_of_single_character_units() {
    assert_eq!(ending_pattern_last_spacing(&PatternUnit::Digit), 1);
    assert_eq!(ending_pattern_last_spacing(&PatternUnit::Wildcard), 1);
    assert_eq!(ending_pattern_last_spacing(&PatternUnit::CharGroup(vec!['a'])), 1);
}

#[test]
fn spacing_of_text_is_its_length_less_one() {
    assert_eq!(ending_pattern_last_spacing(&text("abc")), 2);
    assert_eq!(ending_pattern_last_spacing(&PatternUnit::OneOrMore(Box::new(text("é")))), 1);
}

#[test]
fn spacing_of_groups_and_alternations() {
    let g = group(vec![PatternUnit::Digit, text("abcd")]);
    assert_eq!(ending_pattern_last_spacing(&g), 4);
    let alt = PatternUnit::Alternation((Box::new(text("ab")), Box::new(text("abcde"))));
    assert_eq!(ending_pattern_last_spacing(&alt), 4);
}

#[test]
fn compile_plain_text() {
    let c = compile_pattern(&chars_of("héllo"));
    assert_eq!(c.parts, vec![text("héllo")]);
    assert!(c.start.is_none());
    assert!(c.end.is_none());
    assert_eq!(c.groups, 0);
}

#[test]
fn compile_anchors() {
    let c = compile_pattern(&chars_of(r"^\d+x$"));
    assert_eq!(c.start, Some(PatternUnit::OneOrMore(Box::new(PatternUnit::Digit))));
    assert_eq!(c.end, Some(text("x")));
    assert_eq!(c.parts, vec![]);
}

#[test]
fn compile_groups_and_back_references() {
    let c = compile_pattern(&chars_of(r"(a[^b]?)\1"));
    assert_eq!(
        c.parts,
        vec![
            group(vec![
                text("a"),
                PatternUnit::ZeroOrOne(Box::new(PatternUnit::NegCharGroup(vec!['b']))),
            ]),
            PatternUnit::BackReference(1),
        ]
    );
    assert_eq!(c.groups, 1);
}

#[test]
fn compile_star_after_character_goes_to_top_level() {
    let c = compile_pattern(&chars_of("(ab*)"));
    assert_eq!(
        c.parts,
        vec![PatternUnit::ZeroOrMore(Box::new(text("b"))), group(vec![text("a")])]
    );
}

#[test]
fn compile_alternation_in_group() {
    let c = compile_pattern(&chars_of("(a|b)c"));
    assert_eq!(
        c.parts,
        vec![
            group(vec![PatternUnit::Alternation((
                Box::new(PatternUnit::NonCapturingGroup(vec![text("a")])),
                Box::new(PatternUnit::NonCapturingGroup(vec![text("b")])),
            ))]),
            text("c"),
        ]
    );
}

#[test]
fn copy_is_equal() {
    let u = group(vec![PatternUnit::BackReference(2), text("x")]);
    assert_eq!(clone_unit(&u), u);
}

#[test]
fn opening_a_group_then_pushing_into_it_equals_a_filled_group() {
    let mut g = group(vec![PatternUnit::Digit, group(vec![text("a")])]);
    add_child_groupto_group(&mut g, 1, 0);
    push_to_group(&mut g, 2, 0, &PatternUnit::Wildcard);
    assert_eq!(
        g,
        group(vec![
            PatternUnit::Digit,
            group(vec![text("a"), group(vec![PatternUnit::Wildcard])])
        ])
    );
}
