//! Matching a compiled pattern against an input line, and `match_pattern`.
use vstd::prelude::*;
use vstd::string::{StrSliceExecFns, StringSliceAdditionalSpecFns};
use crate::unit::{
    PatternUnit, Unit, option_view, is_neg_char_group, is_wildcard, clone_option, clone_unit,
    units_view, lemma_group_view,
};
use crate::semantics::{
    Text, MState, Flow, text_of, byte_len, is_class, class_accepts, unitary, with_matched, fail,
    top_lookahead, top_repeat, top_plus, top_star, part_step, parts_loop, group_loop,
    store_backref, alternation, attempt, search, Compiled, last_spacing,
};
use crate::grammar::parse;
use crate::compile::{CompiledPattern, compile_pattern};
use crate::spacing::ending_pattern_last_spacing;
use crate::unitary::{
    mstate, backrefs_view, match_unitary_pattern, class_accepts_exec, bytes_match_at, copy_bytes,
    copy_capture, is_neg_group_exec, group_loop_match, alternation_match,
};

verus! {

/// Whether the unit is the wildcard.
fn is_wildcard_exec(u: &PatternUnit) -> (r: bool)
    ensures
        r == is_wildcard(u@),
{
    match u {
        PatternUnit::Wildcard => true,
        _ => false,
    }
}

/// The look-ahead of a top-level `+` or `*` (see `top_lookahead`).
fn top_lookahead_match(
    str_cursor: usize,
    pu: &PatternUnit,
    parts: &Vec<PatternUnit>,
    i: usize,
    input_line: &str,
    backreferences: &mut Vec<Vec<u8>>,
    current_group_index: &mut usize,
    next_pattern: &Option<PatternUnit>,
    Ghost(fuel): Ghost<nat>,
    Ghost(lm): Ghost<bool>,
) -> (mt: bool)
    requires
        i < parts.len(),
        top_lookahead(
            fuel,
            pu@,
            units_view(parts@),
            i as int,
            text_of(input_line),
            option_view(*next_pattern),
            mstate(lm, str_cursor, old(backreferences)@, *old(current_group_index)),
        ) is Some,
    ensures
        top_lookahead(
            fuel,
            pu@,
            units_view(parts@),
            i as int,
            text_of(input_line),
            option_view(*next_pattern),
            mstate(lm, str_cursor, old(backreferences)@, *old(current_group_index)),
        ) == Some((mt, mstate(lm, str_cursor, final(backreferences)@, *final(current_group_index)))),
{
    if is_wildcard_exec(pu) {
        if i + 1 <= parts.len() - 1 {
            let mut is_match_temp: bool = true;
            let mut str_cursor_temp: usize = str_cursor;
            let mut no_increase = false;
            match_unitary_pattern(
                &mut is_match_temp,
                &mut str_cursor_temp,
                &parts[i + 1],
                input_line,
                false,
                false,
                backreferences,
                current_group_index,
                &mut no_increase,
                clone_option(next_pattern),
                Ghost(fuel),
            );
            is_match_temp
        } else {
            true
        }
    } else {
        false
    }
}

/// The repetition of a top-level `+` or `*` (see `top_repeat`).
fn top_repeat_match(
    is_a_match: &mut bool,
    str_cursor: &mut usize,
    is_local_match: bool,
    pu: &PatternUnit,
    parts: &Vec<PatternUnit>,
    i: usize,
    input_line: &str,
    backreferences: &mut Vec<Vec<u8>>,
    current_group_index: &mut usize,
    next_pattern: &Option<PatternUnit>,
    Ghost(fuel): Ghost<nat>,
)
    requires
        i < parts.len(),
        top_repeat(
            fuel,
            pu@,
            units_view(parts@),
            i as int,
            text_of(input_line),
            option_view(*next_pattern),
            *old(is_a_match),
            mstate(is_local_match, *old(str_cursor), old(backreferences)@, *old(current_group_index)),
        ) is Some,
    ensures
        top_repeat(
            fuel,
            pu@,
            units_view(parts@),
            i as int,
            text_of(input_line),
            option_view(*next_pattern),
            *old(is_a_match),
            mstate(is_local_match, *old(str_cursor), old(backreferences)@, *old(current_group_index)),
        ) == Some(
            mstate(
                *final(is_a_match),
                *final(str_cursor),
                final(backreferences)@,
                *final(current_group_index),
            ),
        ),
{
    let ghost t = text_of(input_line);
    let ghost nxv = option_view(*next_pattern);
    let ghost pv = units_view(parts@);
    let ghost fin = top_repeat(
        fuel,
        pu@,
        pv,
        i as int,
        t,
        nxv,
        *is_a_match,
        mstate(is_local_match, *str_cursor, backreferences@, *current_group_index),
    )->0;
    let n = input_line.as_bytes().len();
    let ncg = is_neg_group_exec(pu);
    let mut lm = is_local_match;
    let ghost mut lf: nat = fuel;
    let mut no_increase = false;
    while lm
        invariant_except_break
            top_repeat(
                lf,
                pu@,
                pv,
                i as int,
                t,
                nxv,
                *is_a_match,
                mstate(lm, *str_cursor, backreferences@, *current_group_index),
            ) == Some(fin),
        invariant
            t == text_of(input_line),
            nxv == option_view(*next_pattern),
            pv == units_view(parts@),
            i < parts.len(),
            n == byte_len(t),
            ncg == is_neg_char_group(pu@),
            no_increase == false,
        ensures
            mstate(*is_a_match, *str_cursor, backreferences@, *current_group_index) == fin,
        decreases lf,
    {
        let is_match_temp = top_lookahead_match(
            *str_cursor,
            pu,
            parts,
            i,
            input_line,
            backreferences,
            current_group_index,
            next_pattern,
            Ghost(lf),
            Ghost(lm),
        );
        if is_match_temp {
            break ;
        }
        if *str_cursor > n - 1 {
            break ;
        }
        match_unitary_pattern(
            &mut lm,
            str_cursor,
            pu,
            input_line,
            false,
            false,
            backreferences,
            current_group_index,
            &mut no_increase,
            clone_option(next_pattern),
            Ghost(lf),
        );
        if *str_cursor > n - 1 {
            break ;
        }
        if ncg && *str_cursor + 1 > n - 1 {
            *is_a_match = lm;
            break ;
        }
        proof {
            lf = (lf - 1) as nat;
        }
    }
}

pub open spec fn flow_of(stop: bool, s: MState) -> Flow {
    if stop {
        Flow::Stop(s)
    } else {
        Flow::Next(s)
    }
}

/// A top-level `+` (see `top_plus`); gives whether to stop.
fn top_plus_match(
    is_a_match: &mut bool,
    str_cursor: &mut usize,
    pu: &PatternUnit,
    parts: &Vec<PatternUnit>,
    i: usize,
    input_line: &str,
    backreferences: &mut Vec<Vec<u8>>,
    current_group_index: &mut usize,
    next_pattern: &Option<PatternUnit>,
    Ghost(fuel): Ghost<nat>,
) -> (stop: bool)
    requires
        i < parts.len(),
        top_plus(
            fuel,
            pu@,
            units_view(parts@),
            i as int,
            text_of(input_line),
            option_view(*next_pattern),
            mstate(
                *old(is_a_match),
                *old(str_cursor),
                old(backreferences)@,
                *old(current_group_index),
            ),
        ) is Some,
    ensures
        top_plus(
            fuel,
            pu@,
            units_view(parts@),
            i as int,
            text_of(input_line),
            option_view(*next_pattern),
            mstate(
                *old(is_a_match),
                *old(str_cursor),
                old(backreferences)@,
                *old(current_group_index),
            ),
        ) == Some(
            flow_of(
                stop,
                mstate(
                    *final(is_a_match),
                    *final(str_cursor),
                    final(backreferences)@,
                    *final(current_group_index),
                ),
            ),
        ),
{
    let mut is_local_match: bool = true;
    let mut increase = true;
    match_unitary_pattern(
        &mut is_local_match,
        str_cursor,
        pu,
        input_line,
        false,
        false,
        backreferences,
        current_group_index,
        &mut increase,
        clone_option(next_pattern),
        Ghost(fuel),
    );
    let n = input_line.as_bytes().len();
    if *str_cursor <= n - 1 {
        let ncg = is_neg_group_exec(pu);
        if ncg && *str_cursor + 1 > n - 1 {
            *is_a_match = is_local_match;
            return true;
        }
        if !is_local_match {
            *is_a_match = is_local_match;
            return true;
        }
        let is_match_temp = top_lookahead_match(
            *str_cursor,
            pu,
            parts,
            i,
            input_line,
            backreferences,
            current_group_index,
            next_pattern,
            Ghost(fuel),
            Ghost(is_local_match),
        );
        if is_match_temp {
            return true;
        }
        top_repeat_match(
            is_a_match,
            str_cursor,
            is_local_match,
            pu,
            parts,
            i,
            input_line,
            backreferences,
            current_group_index,
            next_pattern,
            Ghost(fuel),
        );
        false
    } else {
        false
    }
}

/// A top-level `*` (see `top_star`); gives whether to stop.
fn top_star_match(
    is_a_match: &mut bool,
    str_cursor: &mut usize,
    pu: &PatternUnit,
    parts: &Vec<PatternUnit>,
    i: usize,
    input_line: &str,
    backreferences: &mut Vec<Vec<u8>>,
    current_group_index: &mut usize,
    next_pattern: &Option<PatternUnit>,
    Ghost(fuel): Ghost<nat>,
) -> (stop: bool)
    requires
        i < parts.len(),
        top_star(
            fuel,
            pu@,
            units_view(parts@),
            i as int,
            text_of(input_line),
            option_view(*next_pattern),
            mstate(
                *old(is_a_match),
                *old(str_cursor),
                old(backreferences)@,
                *old(current_group_index),
            ),
        ) is Some,
    ensures
        top_star(
            fuel,
            pu@,
            units_view(parts@),
            i as int,
            text_of(input_line),
            option_view(*next_pattern),
            mstate(
                *old(is_a_match),
                *old(str_cursor),
                old(backreferences)@,
                *old(current_group_index),
            ),
        ) == Some(
            flow_of(
                stop,
                mstate(
                    *final(is_a_match),
                    *final(str_cursor),
                    final(backreferences)@,
                    *final(current_group_index),
                ),
            ),
        ),
{
    let is_match_temp = top_lookahead_match(
        *str_cursor,
        pu,
        parts,
        i,
        input_line,
        backreferences,
        current_group_index,
        next_pattern,
        Ghost(fuel),
        Ghost(true),
    );
    if is_match_temp {
        return true;
    }
    let mut is_local_match: bool = true;
    let mut increase = true;
    match_unitary_pattern(
        &mut is_local_match,
        str_cursor,
        pu,
        input_line,
        false,
        false,
        backreferences,
        current_group_index,
        &mut increase,
        clone_option(next_pattern),
        Ghost(fuel),
    );
    let n = input_line.as_bytes().len();
    if *str_cursor <= n - 1 {
        let ncg = is_neg_group_exec(pu);
        if ncg && *str_cursor + 1 > n - 1 {
            *is_a_match = is_local_match;
            return true;
        }
        top_repeat_match(
            is_a_match,
            str_cursor,
            is_local_match,
            pu,
            parts,
            i,
            input_line,
            backreferences,
            current_group_index,
            next_pattern,
            Ghost(fuel),
        );
        false
    } else {
        false
    }
}

/// One top-level unit (see `part_step`); gives whether to stop.
fn part_step_match(
    is_a_match: &mut bool,
    str_cursor: &mut usize,
    parts: &Vec<PatternUnit>,
    i: usize,
    input_line: &str,
    backreferences: &mut Vec<Vec<u8>>,
    current_group_index: &mut usize,
    Ghost(fuel): Ghost<nat>,
) -> (stop: bool)
    requires
        i < parts.len(),
        part_step(
            fuel,
            units_view(parts@),
            i as int,
            text_of(input_line),
            mstate(
                *old(is_a_match),
                *old(str_cursor),
                old(backreferences)@,
                *old(current_group_index),
            ),
        ) is Some,
    ensures
        part_step(
            fuel,
            units_view(parts@),
            i as int,
            text_of(input_line),
            mstate(
                *old(is_a_match),
                *old(str_cursor),
                old(backreferences)@,
                *old(current_group_index),
            ),
        ) == Some(
            flow_of(
                stop,
                mstate(
                    *final(is_a_match),
                    *final(str_cursor),
                    final(backreferences)@,
                    *final(current_group_index),
                ),
            ),
        ),
{
    let next_pattern = if i + 1 <= parts.len() - 1 {
        Some(clone_unit(&parts[i + 1]))
    } else {
        None
    };
    let bytes = input_line.as_bytes();
    let n = bytes.len();
    let mut increase = true;
    let u = &parts[i];
    match u {
        PatternUnit::Digit | PatternUnit::AlphaNumeric | PatternUnit::CharGroup(_)
        | PatternUnit::NegCharGroup(_) => {
            let ch = input_line.get_char(*str_cursor);
            if !class_accepts_exec(u, ch) {
                *is_a_match = false;
                return true;
            }
            *str_cursor = *str_cursor + 1;
            false
        },
        PatternUnit::PlainText(plain_text) => {
            if *str_cursor + plain_text.len() <= n {
                if !bytes_match_at(bytes, *str_cursor, plain_text) {
                    *is_a_match = false;
                    return true;
                }
                *str_cursor = *str_cursor + plain_text.len();
                false
            } else {
                *is_a_match = false;
                true
            }
        },
        PatternUnit::OneOrMore(pu) => top_plus_match(
            is_a_match,
            str_cursor,
            pu,
            parts,
            i,
            input_line,
            backreferences,
            current_group_index,
            &next_pattern,
            Ghost(fuel),
        ),
        PatternUnit::ZeroOrMore(pu) => top_star_match(
            is_a_match,
            str_cursor,
            pu,
            parts,
            i,
            input_line,
            backreferences,
            current_group_index,
            &next_pattern,
            Ghost(fuel),
        ),
        PatternUnit::ZeroOrOne(pu) => {
            let mut is_local_match: bool = true;
            match_unitary_pattern(
                &mut is_local_match,
                str_cursor,
                pu,
                input_line,
                false,
                false,
                backreferences,
                current_group_index,
                &mut increase,
                next_pattern,
                Ghost(fuel),
            );
            false
        },
        PatternUnit::Wildcard => {
            *str_cursor = *str_cursor + 1;
            false
        },
        PatternUnit::Alternation(p) => {
            alternation_match(
                is_a_match,
                str_cursor,
                &p.0,
                &p.1,
                input_line,
                false,
                false,
                backreferences,
                current_group_index,
                &mut increase,
                &next_pattern,
                Ghost(fuel + 1),
            );
            false
        },
        PatternUnit::CapturingGroup(puvec) => {
            proof {
                lemma_group_view(*puvec);
            }
            let str_cursor_start = *str_cursor;
            *current_group_index = *current_group_index + 1;
            let this_group_index = *current_group_index;
            let is_local_match = group_loop_match(
                is_a_match,
                str_cursor,
                puvec,
                input_line,
                backreferences,
                current_group_index,
                &mut increase,
                &next_pattern,
                true,
                Ghost(fuel),
            );
            if is_local_match {
                let ghost before = backreferences@;
                let captured = copy_bytes(bytes, str_cursor_start, *str_cursor);
                backreferences.set(this_group_index - 1, captured);
                proof {
                    assert(backrefs_view(backreferences@) =~= backrefs_view(before).update(
                        this_group_index - 1,
                        captured@,
                    ));
                }
            }
            false
        },
        PatternUnit::NonCapturingGroup(puvec) => {
            proof {
                lemma_group_view(*puvec);
            }
            group_loop_match(
                is_a_match,
                str_cursor,
                puvec,
                input_line,
                backreferences,
                current_group_index,
                &mut increase,
                &next_pattern,
                false,
                Ghost(fuel),
            );
            false
        },
        PatternUnit::BackReference(index) => {
            let mut is_local_match: bool = true;
            if (*index as usize) - 1 < backreferences.len() {
                let text = PatternUnit::PlainText(
                    copy_capture(&backreferences[(*index as usize) - 1]),
                );
                match_unitary_pattern(
                    &mut is_local_match,
                    str_cursor,
                    &text,
                    input_line,
                    false,
                    false,
                    backreferences,
                    current_group_index,
                    &mut increase,
                    next_pattern,
                    Ghost(fuel),
                );
            } else {
                is_local_match = false;
            }
            if !is_local_match {
                *is_a_match = false;
            }
            false
        },
    }
}

/// Captured texts for `n` groups, all empty.
fn fresh_backrefs(n: usize) -> (r: Vec<Vec<u8>>)
    ensures
        backrefs_view(r@) == Seq::new(n as nat, |k: int| Seq::<u8>::empty()),
{
    let mut r: Vec<Vec<u8>> = Vec::new();
    let mut i: usize = 0;
    while i < n
        invariant
            i <= n,
            r@.len() == i,
            forall|k: int| 0 <= k < i ==> (#[trigger] r@[k])@ == Seq::<u8>::empty(),
        decreases n - i,
    {
        r.push(Vec::new());
        i = i + 1;
    }
    assert(backrefs_view(r@) =~= Seq::new(n as nat, |k: int| Seq::<u8>::empty()));
    r
}

/// Matching from byte position `j` (see `attempt`): whether to stop trying
/// later positions, and the result.
fn attempt_match(cp: &CompiledPattern, input_line: &str, j: usize, Ghost(fuel): Ghost<nat>) -> (r: (
    bool,
    bool,
))
    requires
        attempt(fuel, cp@, text_of(input_line), j) is Some,
    ensures
        attempt(fuel, cp@, text_of(input_line), j) == Some(r),
{
    let ghost t = text_of(input_line);
    let ghost cpv = cp@;
    let n = input_line.as_bytes().len();
    let mut is_a_match: bool = true;
    let mut backreferences = fresh_backrefs(cp.groups);
    let mut str_cursor: usize = j;
    let mut current_group_index: usize = 0;
    let has_start = match &cp.start {
        Some(_) => true,
        None => false,
    };
    if j > 0 && has_start {
        return (true, false);
    }
    match &cp.start {
        Some(su) => {
            let mut increase = true;
            match_unitary_pattern(
                &mut is_a_match,
                &mut str_cursor,
                su,
                input_line,
                true,
                false,
                &mut backreferences,
                &mut current_group_index,
                &mut increase,
                None,
                Ghost(fuel),
            );
            if !is_a_match {
                return (true, false);
            }
        },
        None => {},
    }
    let ghost s1 = mstate(is_a_match, str_cursor, backreferences@, current_group_index);
    let ghost pv = units_view(cp.parts@);
    let ghost fin = parts_loop(fuel, pv, 0, t, s1)->0;
    let mut i: usize = 0;
    while i < cp.parts.len()
        invariant_except_break
            parts_loop(
                fuel,
                pv,
                i as int,
                t,
                mstate(is_a_match, str_cursor, backreferences@, current_group_index),
            ) == Some(fin),
        invariant
            t == text_of(input_line),
            pv == units_view(cp.parts@),
            n == byte_len(t),
            i <= cp.parts.len(),
        ensures
            mstate(is_a_match, str_cursor, backreferences@, current_group_index) == fin,
        decreases cp.parts.len() - i,
    {
        if str_cursor >= n {
            is_a_match = false;
            break ;
        }
        let stop = part_step_match(
            &mut is_a_match,
            &mut str_cursor,
            &cp.parts,
            i,
            input_line,
            &mut backreferences,
            &mut current_group_index,
            Ghost(fuel),
        );
        if stop {
            break ;
        }
        i = i + 1;
    }
    match &cp.end {
        None => (is_a_match, is_a_match),
        Some(eu) => {
            if cp.parts.len() == 0 {
                let spacing = ending_pattern_last_spacing(eu);
                str_cursor = n - (spacing as usize);
            }
            if is_a_match {
                let mut increase = true;
                match_unitary_pattern(
                    &mut is_a_match,
                    &mut str_cursor,
                    eu,
                    input_line,
                    false,
                    true,
                    &mut backreferences,
                    &mut current_group_index,
                    &mut increase,
                    None,
                    Ghost(fuel),
                );
            }
            (is_a_match, is_a_match)
        },
    }
}

/// Tries the compiled pattern at every start position (see `search`).
fn search_match(cp: &CompiledPattern, input_line: &str, Ghost(fuel): Ghost<nat>) -> (r: bool)
    requires
        search(fuel, cp@, text_of(input_line), 0, true) is Some,
    ensures
        search(fuel, cp@, text_of(input_line), 0, true) == Some(r),
{
    let ghost t = text_of(input_line);
    let ghost fin = search(fuel, cp@, t, 0, true)->0;
    let n = input_line.as_bytes().len();
    let mut is_a_match: bool = true;
    let mut j: usize = 0;
    while j < n
        invariant_except_break
            search(fuel, cp@, t, j as int, is_a_match) == Some(fin),
        invariant
            t == text_of(input_line),
            n == byte_len(t),
            j <= n,
        ensures
            is_a_match == fin,
        decreases n - j,
    {
        let (stop, m) = attempt_match(cp, input_line, j, Ghost(fuel));
        is_a_match = m;
        if stop {
            break ;
        }
        j = j + 1;
    }
    is_a_match
}

/// The characters of a string.
pub fn chars_of(s: &str) -> (v: Vec<char>)
    ensures
        v@ == s@,
{
    let mut v: Vec<char> = Vec::new();
    for c in it: s.chars()
        invariant
            v@ == it.seq().take(it.index() as int),
    {
        v.push(c);
    }
    v
}

/// What matching `pattern` against `input_line` gives with `fuel`: a pattern
/// of one character is looked for in the input (`.` matches any non-empty
/// input); any other pattern is compiled and tried at every start position.
/// `None` where compiling or matching fails, or runs out of fuel.
pub open spec fn outcome(t: Text, pat: Seq<char>, fuel: nat) -> Option<bool> {
    if pat.len() == 1 {
        if pat[0] == '.' {
            Some(byte_len(t) > 0)
        } else {
            Some(t.chars.contains(pat[0]))
        }
    } else {
        match parse(pat) {
            None => None,
            Some(cp) => search(fuel, cp, t, 0, true),
        }
    }
}

/// Matching `pat` against `t` finishes: with enough fuel it gives a result.
pub open spec fn finishes(t: Text, pat: Seq<char>) -> bool {
    exists|fuel: nat| outcome(t, pat, fuel) is Some
}

/// The result of matching `pat` against `t`, when matching finishes.
pub open spec fn match_result(t: Text, pat: Seq<char>) -> bool {
    outcome(t, pat, choose|fuel: nat| outcome(t, pat, fuel) is Some)->0
}

/// Matching has one result: any two fuels with which it finishes give the
/// same result.
pub proof fn lemma_outcome_unique(t: Text, pat: Seq<char>, f1: nat, f2: nat)
    requires
        outcome(t, pat, f1) is Some,
        outcome(t, pat, f2) is Some,
    ensures
        outcome(t, pat, f1) == outcome(t, pat, f2),
{
    if pat.len() != 1 {
        let cp = parse(pat)->0;
        if f1 <= f2 {
            crate::fuel::lemma_search_fuel(f1, f2, cp, t, 0, true);
        } else {
            crate::fuel::lemma_search_fuel(f2, f1, cp, t, 0, true);
        }
    }
}

/// Whether `input_line` matches `pattern`: the result that matching gives
/// with any fuel with which it finishes. A pattern of one character is
/// looked for in the input, `.` alone matches any non-empty input.
pub fn match_pattern(input_line: &str, pattern: &str) -> (r: bool)
    requires
        finishes(text_of(input_line), pattern@),
    ensures
        r == match_result(text_of(input_line), pattern@),
        forall|fuel: nat|
            #[trigger] outcome(text_of(input_line), pattern@, fuel) is Some ==> outcome(
                text_of(input_line),
                pattern@,
                fuel,
            ) == Some(r),
        pattern@.len() == 1 ==> r == if pattern@[0] == '.' {
            input_line@.len() > 0
        } else {
            input_line@.contains(pattern@[0])
        },
{
    proof {
        let t = text_of(input_line);
        let f0 = choose|fuel: nat| outcome(t, pattern@, fuel) is Some;
        assert forall|fuel: nat| #[trigger] outcome(t, pattern@, fuel) is Some implies outcome(
            t,
            pattern@,
            fuel,
        ) == outcome(t, pattern@, f0) by {
            lemma_outcome_unique(t, pattern@, fuel, f0);
        }
    }
    let ghost t = text_of(input_line);
    let ghost fuel = choose|fuel: nat| outcome(t, pattern@, fuel) is Some;
    let pat = chars_of(pattern);
    if pat.len() == 1 {
        if pat[0] == '.' {
            return input_line.as_bytes().len() > 0;
        }
        let input = chars_of(input_line);
        return crate::unitary::contains_char(&input, pat[0]);
    }
    let cp = compile_pattern(&pat);
    search_match(&cp, input_line, Ghost(fuel))
}

} // verus!
