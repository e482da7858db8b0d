//! Building nested groups while a pattern is compiled: the group being built
//! is a tree of capturing groups, and new units go into the last, innermost
//! open group, found by descending along last children.
use vstd::prelude::*;
use crate::unit::{PatternUnit, Unit, clone_unit, lemma_group_view, lemma_units_view_push, units_view};

verus! {

/// Whether the descent from `g` (standing at depth `cur`) toward depth `depth`
/// passes only through groups of at most `u32::MAX` children; the descent
/// counts the children it walks over in a `u32`.
pub open spec fn descent_ok(g: Unit, depth: int, cur: int) -> bool
    decreases g,
{
    match g {
        Unit::CapturingGroup(ch) => cur == depth || (ch.len() <= u32::MAX && (ch.len() > 0 && cur
            < depth ==> descent_ok(ch.last(), depth, cur + 1))),
        _ => true,
    }
}

/// `g` with `u` appended to the children of the group at depth `depth`,
/// reached from depth `cur` along last children; `g` itself when the descent
/// does not reach a capturing group at that depth.
pub open spec fn pushed(g: Unit, depth: int, cur: int, u: Unit) -> Unit
    decreases g,
{
    match g {
        Unit::CapturingGroup(ch) => if cur == depth {
            Unit::CapturingGroup(ch.push(u))
        } else if ch.len() > 0 && cur < depth {
            Unit::CapturingGroup(ch.update(ch.len() - 1, pushed(ch.last(), depth, cur + 1, u)))
        } else {
            g
        },
        _ => g,
    }
}

/// The children of the group at depth `depth`, if the descent reaches one.
pub open spec fn target_children(g: Unit, depth: int, cur: int) -> Option<Seq<Unit>>
    decreases g,
{
    match g {
        Unit::CapturingGroup(ch) => if cur == depth {
            Some(ch)
        } else if ch.len() > 0 && cur < depth {
            target_children(ch.last(), depth, cur + 1)
        } else {
            None
        },
        _ => None,
    }
}

/// `g` with the children of the group at depth `depth` removed.
pub open spec fn cleared(g: Unit, depth: int, cur: int) -> Unit
    decreases g,
{
    match g {
        Unit::CapturingGroup(ch) => if cur == depth {
            Unit::CapturingGroup(Seq::empty())
        } else if ch.len() > 0 && cur < depth {
            Unit::CapturingGroup(ch.update(ch.len() - 1, cleared(ch.last(), depth, cur + 1)))
        } else {
            g
        },
        _ => g,
    }
}

/// Opening an empty group inside the group at depth `depth` and then adding
/// a unit one level deeper gives the same tree as opening a group that
/// already holds that unit.
pub proof fn law_open_then_push(g: Unit, depth: int, cur: int, u: Unit)
    requires
        cur <= depth,
    ensures
        pushed(pushed(g, depth, cur, Unit::CapturingGroup(Seq::empty())), depth + 1, cur, u)
            == pushed(g, depth, cur, Unit::CapturingGroup(seq![u])),
    decreases g,
{
    match g {
        Unit::CapturingGroup(ch) => {
            let e = Unit::CapturingGroup(Seq::<Unit>::empty());
            if cur == depth {
                let ch1 = ch.push(e);
                assert(pushed(e, depth + 1, cur + 1, u) == Unit::CapturingGroup(seq![u])) by {
                    assert(Seq::<Unit>::empty().push(u) =~= seq![u]);
                }
                assert(ch1.update(ch1.len() - 1, Unit::CapturingGroup(seq![u])) =~= ch.push(
                    Unit::CapturingGroup(seq![u]),
                ));
            } else if ch.len() > 0 && cur < depth {
                law_open_then_push(ch.last(), depth, cur + 1, u);
                let ch1 = ch.update(ch.len() - 1, pushed(ch.last(), depth, cur + 1, e));
                assert(ch1.last() == pushed(ch.last(), depth, cur + 1, e));
                assert(ch1.update(ch1.len() - 1, pushed(ch1.last(), depth + 1, cur + 1, u)) =~= ch.update(
                    ch.len() - 1,
                    pushed(ch.last(), depth, cur + 1, Unit::CapturingGroup(seq![u])),
                ));
            }
        },
        _ => {},
    }
}

/// The two sides of an alternation being collected.
#[derive(Debug)]
pub struct CurrentAlternationInfo {
    pub group1: Vec<PatternUnit>,
    pub group2: Vec<PatternUnit>,
}

/// What `add_pattern_unit` works on: the top-level units, the group being
/// built, the two sides of the current alternation and whether the next unit
/// is the first one after a `|`.
pub struct Assembly {
    pub parts: Seq<Unit>,
    pub group: Unit,
    pub group1: Seq<Unit>,
    pub group2: Seq<Unit>,
    pub first_alternation: bool,
}

/// Where a new unit goes. Outside any group (`depth == -1`) it is appended to
/// the top-level units; inside a group it is appended to the innermost open
/// group. During an alternation it goes to the right-hand side instead, and
/// the first unit after a `|` first moves everything gathered so far (the
/// top-level units, or the innermost group's children) to the left-hand side.
pub open spec fn add_unit(a: Assembly, is_alternation: bool, u: Unit, depth: int) -> Assembly {
    if !is_alternation {
        if depth == -1 {
            Assembly { parts: a.parts.push(u), ..a }
        } else {
            Assembly { group: pushed(a.group, depth, 0, u), ..a }
        }
    } else if a.first_alternation {
        if depth == -1 {
            Assembly {
                parts: Seq::empty(),
                group1: a.parts,
                group2: a.group2.push(u),
                first_alternation: false,
                ..a
            }
        } else {
            Assembly {
                group: cleared(a.group, depth, 0),
                group1: match target_children(a.group, depth, 0) {
                    Some(ch) => ch,
                    None => a.group1,
                },
                group2: a.group2.push(u),
                first_alternation: false,
                ..a
            }
        }
    } else {
        Assembly { group2: a.group2.push(u), ..a }
    }
}

/// `add_unit` walks the group only outside alternations or for the first
/// unit after a `|`, and only inside a group.
pub open spec fn add_unit_ok(a: Assembly, is_alternation: bool, depth: int) -> bool {
    depth != -1 && (!is_alternation || a.first_alternation) ==> descent_ok(a.group, depth, 0)
}

/// Appends `patten_to_psuh` to the children of the group at depth
/// `group_depth`, reached from `group` (at depth `current_group_depth`) along
/// last children.
pub fn push_to_group(
    group: &mut PatternUnit,
    group_depth: i32,
    current_group_depth: i32,
    patten_to_psuh: &PatternUnit,
)
    requires
        descent_ok(old(group)@, group_depth as int, current_group_depth as int),
    ensures
        final(group)@ == pushed(
            old(group)@,
            group_depth as int,
            current_group_depth as int,
            patten_to_psuh@,
        ),
    decreases group_depth - current_group_depth,
{
    match group {
        PatternUnit::CapturingGroup(children) => {
            proof {
                lemma_group_view(*children);
            }
            if current_group_depth == group_depth {
                let u = clone_unit(patten_to_psuh);
                children.push(u);
                proof {
                    lemma_group_view(*children);
                    lemma_units_view_push(old(group)->CapturingGroup_0@, u);
                }
            } else if children.len() > 0 && current_group_depth < group_depth {
                let ghost before = children@;
                let mut last = children.pop().unwrap();
                proof {
                    assert(units_view(before).last() == last@);
                }
                push_to_group(&mut last, group_depth, current_group_depth + 1, patten_to_psuh);
                children.push(last);
                proof {
                    lemma_group_view(*children);
                    assert(units_view(children@) =~= units_view(before).update(
                        before.len() - 1,
                        last@,
                    ));
                }
            }
        },
        _ => {},
    }
}

/// Moves the children of the group at depth `group_depth` to the left-hand
/// side of the alternation, leaving that group empty; nothing changes when the
/// descent does not reach a capturing group at that depth.
pub fn first_alternation_group(
    group: &mut PatternUnit,
    group_depth: i32,
    current_group_depth: i32,
    patten_to_psuh: &PatternUnit,
    currrent_alternation_info: &mut CurrentAlternationInfo,
)
    requires
        descent_ok(old(group)@, group_depth as int, current_group_depth as int),
    ensures
        final(group)@ == cleared(old(group)@, group_depth as int, current_group_depth as int),
        units_view(final(currrent_alternation_info).group1@) == match target_children(
            old(group)@,
            group_depth as int,
            current_group_depth as int,
        ) {
            Some(ch) => ch,
            None => units_view(old(currrent_alternation_info).group1@),
        },
        final(currrent_alternation_info).group2@ == old(currrent_alternation_info).group2@,
    decreases group_depth - current_group_depth,
{
    match group {
        PatternUnit::CapturingGroup(children) => {
            proof {
                lemma_group_view(*children);
            }
            if current_group_depth == group_depth {
                let mut taken: Vec<PatternUnit> = Vec::new();
                std::mem::swap(&mut taken, children);
                currrent_alternation_info.group1 = taken;
                proof {
                    lemma_group_view(*children);
                    assert(units_view(children@) =~= Seq::<Unit>::empty());
                }
            } else if children.len() > 0 && current_group_depth < group_depth {
                let ghost before = children@;
                let mut last = children.pop().unwrap();
                proof {
                    assert(units_view(before).last() == last@);
                }
                first_alternation_group(
                    &mut last,
                    group_depth,
                    current_group_depth + 1,
                    patten_to_psuh,
                    currrent_alternation_info,
                );
                children.push(last);
                proof {
                    lemma_group_view(*children);
                    assert(units_view(children@) =~= units_view(before).update(
                        before.len() - 1,
                        last@,
                    ));
                }
            }
        },
        _ => {},
    }
}

/// Appends the finished alternation `patten_to_psuh` to the group at depth
/// `group_depth` (the same descent as `push_to_group`).
pub fn find_and_push_to_alternation_group(
    group: &mut PatternUnit,
    group_depth: i32,
    current_group_depth: i32,
    patten_to_psuh: &PatternUnit,
    currrent_alternation_info: &mut CurrentAlternationInfo,
)
    requires
        descent_ok(old(group)@, group_depth as int, current_group_depth as int),
    ensures
        final(group)@ == pushed(
            old(group)@,
            group_depth as int,
            current_group_depth as int,
            patten_to_psuh@,
        ),
        final(currrent_alternation_info).group1@ == old(currrent_alternation_info).group1@,
        final(currrent_alternation_info).group2@ == old(currrent_alternation_info).group2@,
    decreases group_depth - current_group_depth,
{
    match group {
        PatternUnit::CapturingGroup(children) => {
            proof {
                lemma_group_view(*children);
            }
            if current_group_depth == group_depth {
                let u = clone_unit(patten_to_psuh);
                children.push(u);
                proof {
                    lemma_group_view(*children);
                    lemma_units_view_push(old(group)->CapturingGroup_0@, u);
                }
            } else if children.len() > 0 && current_group_depth < group_depth {
                let ghost before = children@;
                let mut last = children.pop().unwrap();
                proof {
                    assert(units_view(before).last() == last@);
                }
                find_and_push_to_alternation_group(
                    &mut last,
                    group_depth,
                    current_group_depth + 1,
                    patten_to_psuh,
                    currrent_alternation_info,
                );
                children.push(last);
                proof {
                    lemma_group_view(*children);
                    assert(units_view(children@) =~= units_view(before).update(
                        before.len() - 1,
                        last@,
                    ));
                }
            }
        },
        _ => {},
    }
}

/// Opens a new, empty capturing group inside the group at depth
/// `group_depth`.
pub fn add_child_groupto_group(group: &mut PatternUnit, group_depth: i32, current_group_depth: i32)
    requires
        descent_ok(old(group)@, group_depth as int, current_group_depth as int),
    ensures
        final(group)@ == pushed(
            old(group)@,
            group_depth as int,
            current_group_depth as int,
            Unit::CapturingGroup(Seq::empty()),
        ),
    decreases group_depth - current_group_depth,
{
    match group {
        PatternUnit::CapturingGroup(children) => {
            proof {
                lemma_group_view(*children);
            }
            if current_group_depth == group_depth {
                let empty: Vec<PatternUnit> = Vec::new();
                proof {
                    lemma_group_view(empty);
                    assert(units_view(empty@) =~= Seq::<Unit>::empty());
                }
                let u = PatternUnit::CapturingGroup(empty);
                children.push(u);
                proof {
                    lemma_group_view(*children);
                    lemma_units_view_push(old(group)->CapturingGroup_0@, u);
                }
            } else if children.len() > 0 && current_group_depth < group_depth {
                let ghost before = children@;
                let mut last = children.pop().unwrap();
                proof {
                    assert(units_view(before).last() == last@);
                }
                add_child_groupto_group(&mut last, group_depth, current_group_depth + 1);
                children.push(last);
                proof {
                    lemma_group_view(*children);
                    assert(units_view(children@) =~= units_view(before).update(
                        before.len() - 1,
                        last@,
                    ));
                }
            }
        },
        _ => {},
    }
}

/// Adds a compiled unit where it belongs (see `add_unit`). The depth of the
/// alternation is not used.
pub fn add_pattern_unit(
    is_alternation: &mut bool,
    pattern_unit: PatternUnit,
    pattern_parts: &mut Vec<PatternUnit>,
    pattern_parts_groups_stack_depth: i32,
    pattern_parts_groups_stack_alternation_depth: i32,
    pattern_parts_group: &mut PatternUnit,
    currrent_alternation_info: &mut CurrentAlternationInfo,
    first_alternation: &mut bool,
)
    requires
        add_unit_ok(
            Assembly {
                parts: units_view(old(pattern_parts)@),
                group: old(pattern_parts_group)@,
                group1: units_view(old(currrent_alternation_info).group1@),
                group2: units_view(old(currrent_alternation_info).group2@),
                first_alternation: *old(first_alternation),
            },
            *old(is_alternation),
            pattern_parts_groups_stack_depth as int,
        ),
    ensures
        *final(is_alternation) == *old(is_alternation),
        ({
            let a = add_unit(
                Assembly {
                    parts: units_view(old(pattern_parts)@),
                    group: old(pattern_parts_group)@,
                    group1: units_view(old(currrent_alternation_info).group1@),
                    group2: units_view(old(currrent_alternation_info).group2@),
                    first_alternation: *old(first_alternation),
                },
                *old(is_alternation),
                pattern_unit@,
                pattern_parts_groups_stack_depth as int,
            );
            &&& units_view(final(pattern_parts)@) == a.parts
            &&& final(pattern_parts_group)@ == a.group
            &&& units_view(final(currrent_alternation_info).group1@) == a.group1
            &&& units_view(final(currrent_alternation_info).group2@) == a.group2
            &&& *final(first_alternation) == a.first_alternation
        }),
{
    let ghost u = pattern_unit@;
    if pattern_parts_groups_stack_depth == -1 {
        if !*is_alternation {
            let ghost before = pattern_parts@;
            pattern_parts.push(pattern_unit);
            proof {
                lemma_units_view_push(before, pattern_unit);
            }
        } else {
            if *first_alternation {
                let mut taken: Vec<PatternUnit> = Vec::new();
                std::mem::swap(&mut taken, pattern_parts);
                currrent_alternation_info.group1 = taken;
                let ghost before = currrent_alternation_info.group2@;
                currrent_alternation_info.group2.push(pattern_unit);
                proof {
                    lemma_units_view_push(before, pattern_unit);
                    assert(units_view(pattern_parts@) =~= Seq::<Unit>::empty());
                }
                *first_alternation = false;
            } else {
                let ghost before = currrent_alternation_info.group2@;
                currrent_alternation_info.group2.push(pattern_unit);
                proof {
                    lemma_units_view_push(before, pattern_unit);
                }
            }
        }
    } else {
        if !*is_alternation {
            push_to_group(
                pattern_parts_group,
                pattern_parts_groups_stack_depth,
                0,
                &pattern_unit,
            );
        } else {
            if *first_alternation {
                first_alternation_group(
                    pattern_parts_group,
                    pattern_parts_groups_stack_depth,
                    0,
                    &pattern_unit,
                    currrent_alternation_info,
                );
                let ghost before = currrent_alternation_info.group2@;
                currrent_alternation_info.group2.push(pattern_unit);
                proof {
                    lemma_units_view_push(before, pattern_unit);
                }
                *first_alternation = false;
            } else {
                let ghost before = currrent_alternation_info.group2@;
                currrent_alternation_info.group2.push(pattern_unit);
                proof {
                    lemma_units_view_push(before, pattern_unit);
                }
            }
        }
    }
}

} // verus!
